use base64::engine::general_purpose::URL_SAFE_NO_PAD;
use base64::Engine;
use ed25519_dalek::Signer;
use sha2::Digest;
use time::format_description::well_known::Rfc3339;
use time::OffsetDateTime;

use grey_signal::admission::{
    admit_envelope, check_envelope_size, decode_public_key, decode_signature, registry_file_name,
    valid_identifier, validate_envelope, validate_payload, validation_clock_fits, AdmissionError, AdmissionMetadata, Grant, ProducerRegistry,
    MAX_ENVELOPE_BYTES,
};
use grey_signal::clock::{
    clock_has_room, format_admission_time, has_room_after, has_room_before, parse_admission_time,
};
use grey_signal::codec::decode_envelope_transport;
use grey_signal::canonical::{full_event_bytes, unsigned_bytes};
use grey_signal::clock::Timestamp;
use grey_signal::envelope::{Envelope, EVENT_SPEC_V1, PROBE_COMPLETED_V1, PROBE_REQUESTED_V1};
use grey_signal::json::JsonValue;

fn at(text: &str) -> Timestamp {
    let t = OffsetDateTime::parse(text, &Rfc3339).unwrap();
    Timestamp { unix_nanos: t.unix_timestamp_nanos(), offset_seconds: t.offset().whole_seconds() }
}

fn now() -> Timestamp {
    at("2026-08-30T17:50:00Z")
}

fn dalek_key() -> ed25519_dalek::SigningKey {
    ed25519_dalek::SigningKey::from_bytes(&[7_u8; 32])
}

fn registry(signing_key: &ed25519_dalek::SigningKey, target: &str) -> ProducerRegistry {
    let public_key = URL_SAFE_NO_PAD.encode(signing_key.verifying_key().as_bytes());
    ProducerRegistry {
        issuer: "p_test".to_owned(),
        keys: vec![("k1".to_owned(), public_key)],
        grants: vec![
            Grant { kind: PROBE_REQUESTED_V1.to_owned(), targets: vec![target.to_owned()] },
            Grant { kind: PROBE_COMPLETED_V1.to_owned(), targets: vec![target.to_owned()] },
        ],
    }
}

fn text(s: &str) -> JsonValue {
    JsonValue::Text(s.to_owned())
}

fn object(members: Vec<(&str, JsonValue)>) -> JsonValue {
    JsonValue::Object(members.into_iter().map(|(k, v)| (k.to_owned(), v)).collect())
}

fn request(target: &str) -> Envelope {
    Envelope {
        spec: EVENT_SPEC_V1.to_owned(),
        id: "evt_test_1".to_owned(),
        issuer: "p_test".to_owned(),
        key_id: "k1".to_owned(),
        kind: PROBE_REQUESTED_V1.to_owned(),
        target: target.to_owned(),
        issued_at: "2026-08-30T17:49:00Z".to_owned(),
        expires_at: "2026-08-30T17:55:00Z".to_owned(),
        correlation_id: "cor_test_1".to_owned(),
        causation_id: None,
        payload: object(vec![("nonce", text("opaque-nonce"))]),
        signature: String::new(),
    }
}

fn sign(envelope: &mut Envelope, signing_key: &ed25519_dalek::SigningKey) {
    let bytes = unsigned_bytes(envelope).unwrap();
    envelope.signature = URL_SAFE_NO_PAD.encode(signing_key.sign(&bytes).to_bytes());
}

fn signed_request(signing_key: &ed25519_dalek::SigningKey, target: &str) -> Envelope {
    let mut envelope = request(target);
    sign(&mut envelope, signing_key);
    envelope
}

fn metadata() -> AdmissionMetadata {
    AdmissionMetadata {
        policy_commit: "abc123".to_owned(),
        workflow_run_id: "42".to_owned(),
        workflow_run_attempt: 1,
        admitted_at: now(),
    }
}

fn outcome(envelope: Envelope) -> Result<grey_signal::admission::AdmissionRecord, AdmissionError> {
    let signing_key = dalek_key();
    admit_envelope(envelope, Ok(registry(&signing_key, "t_test")), &now(), metadata())
}

fn completed(payload: JsonValue) -> Envelope {
    let mut envelope = request("t_test");
    envelope.kind = PROBE_COMPLETED_V1.to_owned();
    envelope.payload = payload;
    sign(&mut envelope, &dalek_key());
    envelope
}

fn completed_payload(request_id: &str, digest: &str, version: &str, observed: &str) -> JsonValue {
    object(vec![
        ("request_id", text(request_id)),
        ("nonce_digest", text(digest)),
        ("consumer_version", text(version)),
        ("observed_at", text(observed)),
    ])
}

const GOOD_DIGEST: &str = "sha256:0123456789abcdef0123456789abcdef0123456789abcdef0123456789abcdef";

#[test]
fn admits_valid_signed_request() {
    let signing_key = dalek_key();
    let registry = registry(&signing_key, "t_test");
    let envelope = signed_request(&signing_key, "t_test");

    let record = admit_envelope(envelope, Ok(registry), &now(), metadata()).unwrap();

    assert_eq!(record.event.id, "evt_test_1");
    assert!(record.event_digest.starts_with("sha256:"));
    assert_eq!(record.admission.policy_commit, "abc123");
}

#[test]
fn rejects_tampered_payload() {
    let signing_key = dalek_key();
    let registry = registry(&signing_key, "t_test");
    let mut envelope = signed_request(&signing_key, "t_test");
    envelope.payload = object(vec![("nonce", text("tampered"))]);

    assert!(matches!(
        admit_envelope(envelope, Ok(registry), &now(), metadata()),
        Err(AdmissionError::InvalidSignature)
    ));
}

#[test]
fn rejects_unauthorized_target() {
    let signing_key = dalek_key();
    let registry = registry(&signing_key, "t_allowed");
    let envelope = signed_request(&signing_key, "t_denied");

    assert!(matches!(
        admit_envelope(envelope, Ok(registry), &now(), metadata()),
        Err(AdmissionError::Unauthorized)
    ));
}

#[test]
fn rejects_expired_event() {
    let signing_key = dalek_key();
    let registry = registry(&signing_key, "t_test");
    let mut envelope = request("t_test");
    envelope.issued_at = "2026-08-30T17:30:00Z".to_owned();
    envelope.expires_at = "2026-08-30T17:35:00Z".to_owned();
    sign(&mut envelope, &signing_key);

    assert!(matches!(
        admit_envelope(envelope, Ok(registry), &now(), metadata()),
        Err(AdmissionError::EventTooOld)
    ));
}

#[test]
fn rejects_unknown_payload_fields() {
    let signing_key = dalek_key();
    let registry = registry(&signing_key, "t_test");
    let mut envelope = request("t_test");
    envelope.payload = object(vec![("nonce", text("x")), ("command", text("do-not-run-this"))]);
    sign(&mut envelope, &signing_key);

    assert!(matches!(
        admit_envelope(envelope, Ok(registry), &now(), metadata()),
        Err(AdmissionError::InvalidPayload(_))
    ));
}

#[test]
fn rejects_oversized_envelope_before_parsing() {
    let raw = vec![b' '; MAX_ENVELOPE_BYTES + 1];

    assert!(matches!(check_envelope_size(&raw), Err(AdmissionError::EnvelopeTooLarge)));
}

#[test]
fn accepts_envelope_of_exactly_the_size_limit() {
    let raw = vec![b' '; MAX_ENVELOPE_BYTES];
    assert!(check_envelope_size(&raw).is_ok());
}

#[test]
fn record_carries_evidence_and_digest_of_full_event() {
    let envelope = signed_request(&dalek_key(), "t_test");
    let full = full_event_bytes(&envelope).unwrap();
    let expected = format!("sha256:{}", hex::encode(sha2::Sha256::digest(&full)));
    let record = outcome(envelope).unwrap();
    assert_eq!(record.record, "grey-signal/admission/v1");
    assert_eq!(record.event_digest, expected);
    assert_eq!(record.event_digest.len(), 71);
    assert!(record.event_digest[7..].bytes().all(|b| b.is_ascii_digit() || (b'a'..=b'f').contains(&b)));
    assert_eq!(record.admission.workflow_run_id, "42");
    assert_eq!(record.admission.workflow_run_attempt, 1);
    assert_eq!(record.admission.admitted_at, "2026-08-30T17:50:00Z");
}

#[test]
fn admission_time_written_in_its_offset() {
    let mut meta = metadata();
    meta.admitted_at = at("2026-08-30T19:50:00+02:00");
    let record = admit_envelope(
        signed_request(&dalek_key(), "t_test"),
        Ok(registry(&dalek_key(), "t_test")),
        &now(),
        meta,
    )
    .unwrap();
    assert_eq!(record.admission.admitted_at, "2026-08-30T19:50:00+02:00");
}

#[test]
fn rejects_unsupported_spec() {
    let mut envelope = request("t_test");
    envelope.spec = "grey-signal/event/v2".to_owned();
    sign(&mut envelope, &dalek_key());
    assert!(matches!(outcome(envelope), Err(AdmissionError::UnsupportedSpec)));
}

#[test]
fn rejects_invalid_identifiers_by_field() {
    let mut envelope = request("t_test");
    envelope.id = "evt/../1".to_owned();
    sign(&mut envelope, &dalek_key());
    assert!(matches!(outcome(envelope), Err(AdmissionError::InvalidIdentifier("id"))));

    let mut envelope = request("t_test");
    envelope.correlation_id = String::new();
    sign(&mut envelope, &dalek_key());
    assert!(matches!(outcome(envelope), Err(AdmissionError::InvalidIdentifier("correlation_id"))));

    let mut envelope = request("t_test");
    envelope.causation_id = Some("x".repeat(97));
    sign(&mut envelope, &dalek_key());
    assert!(matches!(outcome(envelope), Err(AdmissionError::InvalidIdentifier("causation_id"))));
}

#[test]
fn admits_valid_causation_id() {
    let mut envelope = request("t_test");
    envelope.causation_id = Some("evt_cause:1.a-b".to_owned());
    sign(&mut envelope, &dalek_key());
    assert!(outcome(envelope).is_ok());
}

#[test]
fn identifier_rules() {
    assert!(valid_identifier("evt_example"));
    assert!(valid_identifier("a.b-c:d_E9"));
    assert!(valid_identifier(&"x".repeat(96)));
    assert!(!valid_identifier(&"x".repeat(97)));
    assert!(!valid_identifier(""));
    assert!(!valid_identifier("has space"));
    assert!(!valid_identifier("slash/"));
    assert!(!valid_identifier("é"));
}

#[test]
fn rejects_unsupported_kind() {
    let mut envelope = request("t_test");
    envelope.kind = "probe.deleted.v1".to_owned();
    sign(&mut envelope, &dalek_key());
    assert!(matches!(outcome(envelope), Err(AdmissionError::UnsupportedKind)));
}

#[test]
fn rejects_empty_and_oversized_nonce() {
    let mut envelope = request("t_test");
    envelope.payload = object(vec![("nonce", text(""))]);
    sign(&mut envelope, &dalek_key());
    match outcome(envelope) {
        Err(AdmissionError::InvalidPayload(message)) => {
            assert_eq!(message, "nonce must contain 1..=256 bytes")
        }
        other => panic!("unexpected {other:?}"),
    }

    let mut envelope = request("t_test");
    envelope.payload = object(vec![("nonce", text(&"n".repeat(257)))]);
    sign(&mut envelope, &dalek_key());
    assert!(matches!(outcome(envelope), Err(AdmissionError::InvalidPayload(_))));

    let mut envelope = request("t_test");
    envelope.payload = object(vec![("nonce", text(&"n".repeat(256)))]);
    sign(&mut envelope, &dalek_key());
    assert!(outcome(envelope).is_ok());
}

#[test]
fn requested_payload_schema() {
    for payload in [
        object(vec![]),
        object(vec![("nonce", JsonValue::Number("5".to_owned()))]),
        object(vec![("nonce", text("a")), ("nonce", text("b"))]),
        JsonValue::Null,
        text("nonce"),
        JsonValue::Array(vec![text("a"), text("b")]),
    ] {
        let mut envelope = request("t_test");
        envelope.payload = payload;
        sign(&mut envelope, &dalek_key());
        assert!(matches!(outcome(envelope), Err(AdmissionError::InvalidPayload(_))));
    }

    let mut envelope = request("t_test");
    envelope.payload = JsonValue::Array(vec![text("opaque-nonce")]);
    sign(&mut envelope, &dalek_key());
    assert!(outcome(envelope).is_ok());
}

#[test]
fn admits_completed_probe() {
    let envelope = completed(completed_payload(
        "evt_test_0",
        GOOD_DIGEST,
        "consumer/1.0",
        "2026-08-30T17:49:30Z",
    ));
    assert!(outcome(envelope).is_ok());
}

#[test]
fn completed_probe_checks() {
    let cases: Vec<(JsonValue, &str)> = vec![
        (
            completed_payload("bad id", GOOD_DIGEST, "v1", "2026-08-30T17:49:30Z"),
            "request_id is not a valid identifier",
        ),
        (
            completed_payload("r1", "sha256:abc", "v1", "2026-08-30T17:49:30Z"),
            "nonce_digest must be sha256:<64 lowercase hex characters>",
        ),
        (
            completed_payload("r1", &GOOD_DIGEST.replace("sha256", "sha512"), "v1", "2026-08-30T17:49:30Z"),
            "nonce_digest must be sha256:<64 lowercase hex characters>",
        ),
        (
            completed_payload("r1", &GOOD_DIGEST.replace("abcdef", "ABCDEF"), "v1", "2026-08-30T17:49:30Z"),
            "nonce_digest must be lowercase hexadecimal",
        ),
        (
            completed_payload("r1", GOOD_DIGEST, "", "2026-08-30T17:49:30Z"),
            "consumer_version must contain 1..=96 bytes",
        ),
        (
            completed_payload("r1", GOOD_DIGEST, &"v".repeat(97), "2026-08-30T17:49:30Z"),
            "consumer_version must contain 1..=96 bytes",
        ),
        (
            completed_payload("r1", GOOD_DIGEST, "v1", "2026-08-30T17:51:01Z"),
            "observed_at is too far in the future",
        ),
    ];
    for (payload, expected) in cases {
        match outcome(completed(payload)) {
            Err(AdmissionError::InvalidPayload(message)) => assert_eq!(message, expected),
            other => panic!("unexpected {other:?} for {expected}"),
        }
    }

    assert!(matches!(
        outcome(completed(completed_payload("r1", GOOD_DIGEST, "v1", "yesterday"))),
        Err(AdmissionError::InvalidTimestamp("payload.observed_at"))
    ));
    assert!(outcome(completed(completed_payload("r1", GOOD_DIGEST, "v1", "2026-08-30T17:51:00Z"))).is_ok());
    assert!(matches!(
        outcome(completed(object(vec![("request_id", text("r1"))]))),
        Err(AdmissionError::InvalidPayload(_))
    ));
}

#[test]
fn time_window_edges() {
    let case = |issued: &str, expires: &str| {
        let mut envelope = request("t_test");
        envelope.issued_at = issued.to_owned();
        envelope.expires_at = expires.to_owned();
        sign(&mut envelope, &dalek_key());
        outcome(envelope)
    };
    assert!(case("2026-08-30T17:51:00Z", "2026-08-30T17:55:00Z").is_ok());
    assert!(matches!(case("2026-08-30T17:51:01Z", "2026-08-30T17:55:00Z"), Err(AdmissionError::IssuedInFuture)));
    assert!(case("2026-08-30T17:35:00Z", "2026-08-30T17:50:00Z").is_ok());
    assert!(matches!(case("2026-08-30T17:34:59Z", "2026-08-30T17:50:00Z"), Err(AdmissionError::EventTooOld)));
    assert!(matches!(case("2026-08-30T17:49:00Z", "2026-08-30T17:49:00Z"), Err(AdmissionError::InvalidExpiryOrder)));
    assert!(matches!(case("2026-08-30T17:49:00Z", "2026-08-30T18:04:01Z"), Err(AdmissionError::ExcessiveTtl)));
    assert!(case("2026-08-30T17:49:00Z", "2026-08-30T18:04:00Z").is_ok());
    assert!(matches!(case("2026-08-30T17:40:00Z", "2026-08-30T17:49:59Z"), Err(AdmissionError::Expired)));
    assert!(matches!(case("not a time", "2026-08-30T17:55:00Z"), Err(AdmissionError::InvalidTimestamp("issued_at"))));
    assert!(matches!(case("2026-08-30T17:49:00Z", "2026-08-30 17:55"), Err(AdmissionError::InvalidTimestamp("expires_at"))));
    assert!(case("2026-08-30T19:49:00+02:00", "2026-08-30T17:55:00Z").is_ok());
}

#[test]
fn registry_failures() {
    let signing_key = dalek_key();
    let envelope = signed_request(&signing_key, "t_test");
    assert!(matches!(
        admit_envelope(envelope, Err(AdmissionError::RegistryUnavailable), &now(), metadata()),
        Err(AdmissionError::RegistryUnavailable)
    ));

    let mut invalid = request("t_test");
    invalid.id = String::new();
    assert!(matches!(
        admit_envelope(invalid, Err(AdmissionError::RegistryInvalid), &now(), metadata()),
        Err(AdmissionError::InvalidIdentifier("id"))
    ));

    let mut other = registry(&signing_key, "t_test");
    other.issuer = "p_other".to_owned();
    assert!(matches!(
        admit_envelope(signed_request(&signing_key, "t_test"), Ok(other), &now(), metadata()),
        Err(AdmissionError::RegistryIssuerMismatch)
    ));

    let mut renamed = registry(&signing_key, "t_test");
    renamed.keys[0].0 = "k2".to_owned();
    assert!(matches!(
        admit_envelope(signed_request(&signing_key, "t_test"), Ok(renamed), &now(), metadata()),
        Err(AdmissionError::UnknownKey)
    ));

    let mut short = registry(&signing_key, "t_test");
    short.keys[0].1 = URL_SAFE_NO_PAD.encode([1_u8; 31]);
    assert!(matches!(
        admit_envelope(signed_request(&signing_key, "t_test"), Ok(short), &now(), metadata()),
        Err(AdmissionError::InvalidPublicKey)
    ));

    let mut padded = registry(&signing_key, "t_test");
    padded.keys[0].1.push('=');
    assert!(matches!(
        admit_envelope(signed_request(&signing_key, "t_test"), Ok(padded), &now(), metadata()),
        Err(AdmissionError::InvalidPublicKey)
    ));
}

#[test]
fn signature_encoding_failures() {
    let signing_key = dalek_key();
    let mut envelope = signed_request(&signing_key, "t_test");
    envelope.signature = "not base64!".to_owned();
    assert!(matches!(outcome(envelope), Err(AdmissionError::InvalidSignatureEncoding)));

    let mut envelope = signed_request(&signing_key, "t_test");
    envelope.signature = URL_SAFE_NO_PAD.encode([0_u8; 63]);
    assert!(matches!(outcome(envelope), Err(AdmissionError::InvalidSignatureEncoding)));

    let mut envelope = signed_request(&signing_key, "t_test");
    envelope.signature = URL_SAFE_NO_PAD.encode([0_u8; 64]);
    assert!(matches!(outcome(envelope), Err(AdmissionError::InvalidSignature)));

    let other_key = ed25519_dalek::SigningKey::from_bytes(&[8_u8; 32]);
    let envelope = signed_request(&other_key, "t_test");
    assert!(matches!(outcome(envelope), Err(AdmissionError::InvalidSignature)));
}

#[test]
fn validation_accepts_the_signed_request() {
    let envelope = signed_request(&dalek_key(), "t_test");
    assert!(validate_envelope(&envelope, &now()).is_ok());
}

#[test]
fn registry_file_is_named_after_issuer() {
    assert_eq!(registry_file_name("p_example"), "p_example.json");
}

#[test]
fn envelope_signed_by_producer_is_admitted() {
    let producer_key = grey_signal::producer::SigningKey::from_bytes(&[7_u8; 32]);
    let mut registry = registry(&dalek_key(), "t_test");
    registry.keys[0].1 = grey_signal::producer::public_key(&producer_key);
    let signed = grey_signal::producer::sign_envelope(request("t_test"), &producer_key).unwrap();
    let record = admit_envelope(signed, Ok(registry), &now(), metadata()).unwrap();
    assert_eq!(record.event.key_id, "k1");
}

#[test]
fn envelope_signed_by_another_producer_is_refused() {
    let other_key = grey_signal::producer::SigningKey::from_bytes(&[9_u8; 32]);
    let signed = grey_signal::producer::sign_envelope(request("t_test"), &other_key).unwrap();
    assert!(matches!(outcome(signed), Err(AdmissionError::InvalidSignature)));
}

#[test]
fn registered_key_that_is_not_a_curve_point_is_refused() {
    let not_a_point = (0_u8..=255)
        .map(|b| [b; 32])
        .find(|bytes| ed25519_dalek::VerifyingKey::from_bytes(bytes).is_err())
        .unwrap();
    let mut registry = registry(&dalek_key(), "t_test");
    registry.keys[0].1 = URL_SAFE_NO_PAD.encode(not_a_point);
    assert!(matches!(
        admit_envelope(signed_request(&dalek_key(), "t_test"), Ok(registry), &now(), metadata()),
        Err(AdmissionError::InvalidPublicKey)
    ));
}

const EARLIEST_LOCAL_NANOS: i128 = -377_705_203_200_000_000_000;

#[test]
fn transport_encoding_is_unpadded_url_safe_base64() {
    assert_eq!(decode_envelope_transport("eyJhIjoxfQ"), Some(b"{\"a\":1}".to_vec()));
    assert_eq!(decode_envelope_transport("-_8"), Some(vec![0xfb, 0xff]));
    assert_eq!(decode_envelope_transport("eyJhIjoxfQ=="), None);
    assert_eq!(decode_envelope_transport("+/8"), None);
    assert_eq!(decode_envelope_transport("not base64!"), None);
}

#[test]
fn admission_time_keeps_instant_and_offset() {
    let t = parse_admission_time("2026-08-30T17:50:00+02:00").unwrap();
    assert_eq!(t.unix_nanos, at("2026-08-30T15:50:00Z").unix_nanos);
    assert_eq!(t.offset_seconds, 7200);
    let t = parse_admission_time("2026-08-30T17:50:00.25Z").unwrap();
    assert_eq!(t.unix_nanos, 1_788_112_200_250_000_000);
    assert_eq!(t.offset_seconds, 0);
    assert!(parse_admission_time("2026-08-30 17:50:00").is_none());
    assert!(parse_admission_time("yesterday").is_none());
}

#[test]
fn clock_room_at_the_calendar_edges() {
    assert!(clock_has_room(&now()));
    assert!(clock_has_room(&at("9999-12-31T23:58:59Z")));
    assert!(!clock_has_room(&at("9999-12-31T23:59:00Z")));
    assert!(clock_has_room(&at("9999-12-31T23:58:59+00:01")));
    assert!(!clock_has_room(&at("9999-12-31T23:59:30+01:00")));
    assert!(has_room_after(&at("9999-12-31T23:59:59Z"), 0));
    assert!(!has_room_after(&at("9999-12-31T23:59:59Z"), 1));
    let edge = Timestamp { unix_nanos: EARLIEST_LOCAL_NANOS + 900_000_000_000, offset_seconds: 0 };
    assert!(has_room_before(&edge, 900));
    let past = Timestamp { unix_nanos: edge.unix_nanos - 1, offset_seconds: 0 };
    assert!(!has_room_before(&past, 900));
    assert!(!clock_has_room(&past));
    let shifted = Timestamp { unix_nanos: edge.unix_nanos - 3_600_000_000_000, offset_seconds: 3600 };
    assert!(has_room_before(&shifted, 900));
}

#[test]
fn validation_clock_fits_where_validation_moves_now() {
    let late = at("9999-12-31T23:59:30Z");
    assert!(validation_clock_fits(&request("t_test"), &now()));
    assert!(!validation_clock_fits(&request("t_test"), &late));
    let mut unsupported = request("t_test");
    unsupported.spec = "grey-signal/event/v0".to_owned();
    assert!(validation_clock_fits(&unsupported, &late));
    assert!(matches!(validate_envelope(&unsupported, &late), Err(AdmissionError::UnsupportedSpec)));
    let mut empty_nonce = request("t_test");
    empty_nonce.payload = object(vec![("nonce", text(""))]);
    assert!(validation_clock_fits(&empty_nonce, &late));
    assert!(matches!(validate_envelope(&empty_nonce, &late), Err(AdmissionError::InvalidPayload(_))));
    let mut bad_time = request("t_test");
    bad_time.issued_at = "later".to_owned();
    assert!(validation_clock_fits(&bad_time, &late));
    assert!(matches!(validate_envelope(&bad_time, &late), Err(AdmissionError::InvalidTimestamp("issued_at"))));
    let observed = completed(completed_payload(
        "req_1",
        "sha256:0000000000000000000000000000000000000000000000000000000000000000",
        "v1",
        "2026-08-30T17:49:30Z",
    ));
    assert!(!validation_clock_fits(&observed, &late));
    let early = Timestamp { unix_nanos: EARLIEST_LOCAL_NANOS + 300_000_000_000, offset_seconds: 0 };
    assert!(validation_clock_fits(&request("t_test"), &early));
    assert!(matches!(validate_envelope(&request("t_test"), &early), Err(AdmissionError::IssuedInFuture)));
}

#[test]
fn registry_key_ids_are_distinct() {
    let mut registry = registry(&dalek_key(), "t_test");
    assert!(registry.has_distinct_key_ids());
    registry.keys.push(("k2".to_owned(), "AAAA".to_owned()));
    assert!(registry.has_distinct_key_ids());
    registry.keys.push(("k1".to_owned(), "BBBB".to_owned()));
    assert!(!registry.has_distinct_key_ids());
}

#[test]
fn admission_record_clones() {
    let record = outcome(signed_request(&dalek_key(), "t_test")).unwrap();
    let copy = record.clone();
    assert_eq!(copy.event, record.event);
    assert_eq!(copy.event_digest, record.event_digest);
    assert_eq!(copy.admission.admitted_at, record.admission.admitted_at);
}

#[test]
fn identifier_pieces_and_joins() {
    let a = "evt_example.1";
    let b = "x".repeat(83);
    for start in 0..a.len() {
        for end in start + 1..=a.len() {
            assert!(valid_identifier(&a[start..end]));
        }
    }
    assert_eq!(a.len() + b.len(), 96);
    assert!(valid_identifier(&(a.to_owned() + &b)));
    assert!(!valid_identifier(&(a.to_owned() + &b + "y")));
}

#[test]
fn completed_payload_stays_valid_later() {
    let envelope = completed(completed_payload(
        "evt_test_0",
        GOOD_DIGEST,
        "consumer/1.0",
        "2026-08-30T17:51:00Z",
    ));
    assert!(validate_envelope(&envelope, &now()).is_ok());
    assert!(validate_envelope(&envelope, &at("2026-08-30T17:52:00Z")).is_ok());
    assert!(matches!(
        validate_envelope(&envelope, &at("2026-08-30T17:49:59Z")),
        Err(AdmissionError::InvalidPayload(_))
    ));
}

#[test]
fn admission_time_whose_instant_passes_the_calendar_is_written() {
    let mut meta = metadata();
    meta.admitted_at = at("9999-12-31T23:30:00-01:00");
    let record = admit_envelope(
        signed_request(&dalek_key(), "t_test"),
        Ok(registry(&dalek_key(), "t_test")),
        &now(),
        meta,
    )
    .unwrap();
    assert_eq!(record.admission.admitted_at, "9999-12-31T23:30:00-01:00");
}

#[test]
fn admission_time_formatting_edges() {
    assert_eq!(format_admission_time(&at("0000-01-01T00:30:00+01:00")).unwrap(), "0000-01-01T00:30:00+01:00");
    assert_eq!(format_admission_time(&now()).unwrap(), "2026-08-30T17:50:00Z");
    let beyond = Timestamp { unix_nanos: 253_402_300_800_000_000_000, offset_seconds: 0 };
    assert_eq!(format_admission_time(&beyond), None);
    let odd_offset = Timestamp { unix_nanos: 0, offset_seconds: 30 };
    assert_eq!(format_admission_time(&odd_offset), None);
}

#[test]
fn payload_validation_by_itself() {
    assert!(validate_payload(&request("t_test"), &now()).is_ok());
    let mut extra = request("t_test");
    extra.payload = object(vec![("nonce", text("n")), ("extra", text("x"))]);
    assert!(matches!(validate_payload(&extra, &now()), Err(AdmissionError::InvalidPayload(_))));
    let mut unknown = request("t_test");
    unknown.kind = "probe.unknown.v1".to_owned();
    assert!(matches!(validate_payload(&unknown, &now()), Err(AdmissionError::UnsupportedKind)));
}

#[test]
fn key_and_signature_decoding() {
    let key = dalek_key();
    let text = URL_SAFE_NO_PAD.encode(key.verifying_key().as_bytes());
    assert_eq!(decode_public_key(&text).unwrap(), key.verifying_key().to_bytes());
    assert!(matches!(decode_public_key("AAAA"), Err(AdmissionError::InvalidPublicKey)));
    assert!(matches!(decode_public_key("not base64!"), Err(AdmissionError::InvalidPublicKey)));
    let signature = [9_u8; 64];
    assert_eq!(decode_signature(&URL_SAFE_NO_PAD.encode(signature)).unwrap(), signature);
    assert!(matches!(decode_signature(&URL_SAFE_NO_PAD.encode([9_u8; 63])), Err(AdmissionError::InvalidSignatureEncoding)));
    assert!(matches!(decode_signature("A"), Err(AdmissionError::InvalidSignatureEncoding)));
}
