//! Admission policy: whether an authenticated producer's event envelope is
//! admitted, and the evidence recorded when it is.

use vstd::prelude::*;
use vstd::string::*;
use vstd::utf8::encode_utf8;

use crate::canonical::{event_text, full_event_bytes, unsigned_bytes, unsigned_text};
use crate::clock::{format_admission_time, has_room_after, has_room_before, parse_rfc3339, admission_time_text, rfc3339_instant, Timestamp, NANOS_PER_SECOND};
use crate::codec::{base64url_decode, decode_base64url, encode_hex, hex_lower};
use crate::crypto::{
    ed25519_key_decodes, ed25519_point_decodes, ed25519_verifies_strictly, ed25519_verify_strict,
    sha256, sha256_digest,
};
use crate::envelope::{
    completed_fields, decode_string_fields, decoded_fields, requested_fields, Envelope,
    ProbeCompletedPayload, ProbeRequestedPayload, EVENT_SPEC_V1, PROBE_COMPLETED_V1,
    PROBE_REQUESTED_V1,
};
use crate::text::{bytes_start_with, str_equal};

verus! {

pub const MAX_ENVELOPE_BYTES: usize = 8 * 1024;

pub const MAX_ID_LEN: usize = 96;

pub const MAX_CLOCK_SKEW_SECONDS: i128 = 60;

pub const MAX_EVENT_AGE_SECONDS: i128 = 15 * 60;

pub const MAX_TTL_SECONDS: i128 = 15 * 60;

pub const MAX_NONCE_BYTES: usize = 256;

pub const MAX_CONSUMER_VERSION_BYTES: usize = 96;

/// Why an envelope is refused, as the contracts speak of it: an
/// `AdmissionError` with its strings taken as character sequences.
pub enum Rejection {
    EnvelopeTooLarge,
    InvalidJson,
    UnsupportedSpec,
    InvalidIdentifier(Seq<char>),
    UnsupportedKind,
    InvalidPayload(Seq<char>),
    InvalidTimestamp(Seq<char>),
    IssuedInFuture,
    EventTooOld,
    InvalidExpiryOrder,
    ExcessiveTtl,
    Expired,
    RegistryUnavailable,
    RegistryInvalid,
    RegistryIssuerMismatch,
    UnknownKey,
    Unauthorized,
    InvalidPublicKey,
    InvalidSignatureEncoding,
    InvalidSignature,
    Canonicalization,
}

/// Why an envelope was not admitted.
#[derive(Debug)]
pub enum AdmissionError {
    EnvelopeTooLarge,
    InvalidJson(serde_json::Error),
    UnsupportedSpec,
    InvalidIdentifier(&'static str),
    UnsupportedKind,
    InvalidPayload(String),
    InvalidTimestamp(&'static str),
    IssuedInFuture,
    EventTooOld,
    InvalidExpiryOrder,
    ExcessiveTtl,
    Expired,
    RegistryUnavailable,
    RegistryInvalid,
    RegistryIssuerMismatch,
    UnknownKey,
    Unauthorized,
    InvalidPublicKey,
    InvalidSignatureEncoding,
    InvalidSignature,
    Canonicalization,
}

impl View for AdmissionError {
    type V = Rejection;

    open spec fn view(&self) -> Rejection {
        match self {
            AdmissionError::EnvelopeTooLarge => Rejection::EnvelopeTooLarge,
            AdmissionError::InvalidJson(_) => Rejection::InvalidJson,
            AdmissionError::UnsupportedSpec => Rejection::UnsupportedSpec,
            AdmissionError::InvalidIdentifier(field) => Rejection::InvalidIdentifier(field@),
            AdmissionError::UnsupportedKind => Rejection::UnsupportedKind,
            AdmissionError::InvalidPayload(message) => Rejection::InvalidPayload(message@),
            AdmissionError::InvalidTimestamp(field) => Rejection::InvalidTimestamp(field@),
            AdmissionError::IssuedInFuture => Rejection::IssuedInFuture,
            AdmissionError::EventTooOld => Rejection::EventTooOld,
            AdmissionError::InvalidExpiryOrder => Rejection::InvalidExpiryOrder,
            AdmissionError::ExcessiveTtl => Rejection::ExcessiveTtl,
            AdmissionError::Expired => Rejection::Expired,
            AdmissionError::RegistryUnavailable => Rejection::RegistryUnavailable,
            AdmissionError::RegistryInvalid => Rejection::RegistryInvalid,
            AdmissionError::RegistryIssuerMismatch => Rejection::RegistryIssuerMismatch,
            AdmissionError::UnknownKey => Rejection::UnknownKey,
            AdmissionError::Unauthorized => Rejection::Unauthorized,
            AdmissionError::InvalidPublicKey => Rejection::InvalidPublicKey,
            AdmissionError::InvalidSignatureEncoding => Rejection::InvalidSignatureEncoding,
            AdmissionError::InvalidSignature => Rejection::InvalidSignature,
            AdmissionError::Canonicalization => Rejection::Canonicalization,
        }
    }
}

/// Bytes allowed in identifiers: ASCII letters and digits, `_`, `-`, `.`, `:`.
pub open spec fn identifier_byte(b: u8) -> bool {
    (48 <= b <= 57) || (65 <= b <= 90) || (97 <= b <= 122) || b == 95 || b == 45 || b == 46
        || b == 58
}

/// A valid identifier: 1 to `MAX_ID_LEN` bytes, all identifier bytes.
pub open spec fn is_valid_identifier(value: Seq<char>) -> bool {
    let bytes = encode_utf8(value);
    &&& 0 < bytes.len() <= MAX_ID_LEN
    &&& forall|i: int| 0 <= i < bytes.len() ==> identifier_byte(#[trigger] bytes[i])
}

/// Whether `value` is a valid identifier.
pub fn valid_identifier(value: &str) -> (r: bool)
    ensures
        r == is_valid_identifier(value@),
{
    let bytes = value.as_bytes();
    if bytes.len() == 0 || bytes.len() > MAX_ID_LEN {
        return false;
    }
    let mut i: usize = 0;
    while i < bytes.len()
        invariant
            i <= bytes@.len(),
            bytes@ == encode_utf8(value@),
            forall|k: int| 0 <= k < i ==> identifier_byte(#[trigger] bytes@[k]),
        decreases bytes@.len() - i,
    {
        let b = bytes[i];
        let ok = (48 <= b && b <= 57) || (65 <= b && b <= 90) || (97 <= b && b <= 122) || b == 95
            || b == 45 || b == 46 || b == 58;
        if !ok {
            return false;
        }
        i = i + 1;
    }
    true
}

/// Characters allowed in identifiers: the identifier bytes, read as ASCII.
pub open spec fn identifier_char(c: char) -> bool {
    let u = c as u32;
    (48 <= u <= 57) || (65 <= u <= 90) || (97 <= u <= 122) || u == 95 || u == 45 || u == 46
        || u == 58
}

proof fn lemma_identifier_encoding(value: Seq<char>)
    ensures
        (forall|i: int|
            0 <= i < encode_utf8(value).len() ==> identifier_byte(#[trigger] encode_utf8(value)[i]))
            <==> (forall|i: int| 0 <= i < value.len() ==> identifier_char(#[trigger] value[i])),
        (forall|i: int| 0 <= i < value.len() ==> identifier_char(#[trigger] value[i]))
            ==> encode_utf8(value).len() == value.len(),
    decreases value.len(),
{
    if value.len() > 0 {
        let rest = value.drop_first();
        lemma_identifier_encoding(rest);
        let c = value[0] as u32;
        let head = vstd::utf8::encode_scalar(c);
        let bytes = encode_utf8(value);
        assert(bytes == head + encode_utf8(rest));
        if vstd::utf8::has_width_1_encoding(c) {
            assert(vstd::utf8::leading_byte_width_1(c) == c as u8) by (bit_vector)
                requires
                    c <= 0x7f,
            ;
            assert(head.len() == 1 && head[0] == c as u8);
            if forall|i: int| 0 <= i < value.len() ==> identifier_char(#[trigger] value[i]) {
                assert forall|i: int| 0 <= i < rest.len() implies identifier_char(#[trigger] rest[i]) by {
                    assert(rest[i] == value[i + 1]);
                }
                assert(identifier_char(value[0]));
                assert forall|i: int| 0 <= i < bytes.len() implies identifier_byte(#[trigger] bytes[i]) by {
                    if i > 0 {
                        assert(bytes[i] == encode_utf8(rest)[i - 1]);
                    }
                }
            }
            if forall|i: int| 0 <= i < bytes.len() ==> identifier_byte(#[trigger] bytes[i]) {
                assert(identifier_byte(bytes[0]));
                assert forall|i: int| 0 <= i < encode_utf8(rest).len() implies identifier_byte(
                    #[trigger] encode_utf8(rest)[i],
                ) by {
                    assert(encode_utf8(rest)[i] == bytes[i + 1]);
                }
                assert forall|i: int| 0 <= i < value.len() implies identifier_char(#[trigger] value[i]) by {
                    if i > 0 {
                        assert(value[i] == rest[i - 1]);
                    }
                }
            }
        } else {
            let b = head[0];
            assert(b >= 0xc0) by {
                let x2 = ((c >> 6u32) & 0x1f) as u8;
                let x3 = ((c >> 12u32) & 0x0f) as u8;
                let x4 = ((c >> 18u32) & 0x7) as u8;
                assert(0xc0u8 | x2 >= 0xc0) by (bit_vector);
                assert(0xe0u8 | x3 >= 0xc0) by (bit_vector);
                assert(0xf0u8 | x4 >= 0xc0) by (bit_vector);
            }
            assert(!identifier_byte(bytes[0]));
            assert(!identifier_char(value[0]));
        }
    }
}

/// A valid identifier, read on its characters: 1 to `MAX_ID_LEN` of them,
/// all identifier characters. Its bytes are its characters, one byte each.
pub proof fn lemma_identifier_chars(value: Seq<char>)
    ensures
        is_valid_identifier(value) <==> (0 < value.len() <= MAX_ID_LEN && forall|i: int|
            0 <= i < value.len() ==> identifier_char(#[trigger] value[i])),
        is_valid_identifier(value) ==> encode_utf8(value).len() == value.len() && forall|i: int|
            0 <= i < value.len() ==> #[trigger] encode_utf8(value)[i] == value[i] as u8,
{
    lemma_identifier_encoding(value);
    if is_valid_identifier(value) {
        assert(vstd::utf8::is_ascii_chars(value)) by {
            assert forall|i: int| 0 <= i < value.len() implies '\0' <= #[trigger] value[i] <= '\u{7f}' by {
                assert(identifier_char(value[i]));
                assert((value[i] as u32) < 128);
                vstd::utf8::char_u32_cast(value[i], value[i] as u32);
            }
        }
        vstd::utf8::is_ascii_chars_encode_utf8(value);
    }
}

/// Every nonempty piece of a valid identifier is a valid identifier, and its
/// bytes are the same piece of the identifier's bytes.
pub proof fn lemma_identifier_piece(value: Seq<char>, start: int, end: int)
    requires
        is_valid_identifier(value),
        0 <= start < end <= value.len(),
    ensures
        is_valid_identifier(value.subrange(start, end)),
        encode_utf8(value.subrange(start, end)) == encode_utf8(value).subrange(start, end),
{
    lemma_identifier_chars(value);
    let piece = value.subrange(start, end);
    lemma_identifier_chars(piece);
    assert forall|i: int| 0 <= i < piece.len() implies identifier_char(#[trigger] piece[i]) by {
        assert(piece[i] == value[start + i]);
    }
    assert(encode_utf8(piece) =~= encode_utf8(value).subrange(start, end)) by {
        assert forall|i: int| 0 <= i < piece.len() implies #[trigger] encode_utf8(piece)[i]
            == encode_utf8(value)[start + i] by {
            assert(piece[i] == value[start + i]);
        }
    }
}

/// Two valid identifiers joined form a valid identifier exactly when the
/// result is at most `MAX_ID_LEN` characters long.
pub proof fn lemma_identifier_join(a: Seq<char>, b: Seq<char>)
    requires
        is_valid_identifier(a),
        is_valid_identifier(b),
    ensures
        is_valid_identifier(a + b) <==> a.len() + b.len() <= MAX_ID_LEN,
{
    lemma_identifier_chars(a);
    lemma_identifier_chars(b);
    let joined = a + b;
    lemma_identifier_chars(joined);
    assert forall|i: int| 0 <= i < joined.len() implies identifier_char(#[trigger] joined[i]) by {
        if i < a.len() {
            assert(joined[i] == a[i]);
        } else {
            assert(joined[i] == b[i - a.len()]);
        }
    }
}


/// The message of a `probe.requested.v1` payload that does not fit its
/// schema. Where the payload comes from JSON, a caller that reads it with
/// serde has serde's own message for the same refusal.
pub const REQUESTED_PAYLOAD_SCHEMA: &'static str =
    "payload must be exactly { nonce: string } for probe.requested.v1";

/// The message of a `probe.completed.v1` payload that does not fit its
/// schema.
pub const COMPLETED_PAYLOAD_SCHEMA: &'static str =
    "payload must be exactly { request_id, nonce_digest, consumer_version, observed_at: string } for probe.completed.v1";

pub const NONCE_LENGTH: &'static str = "nonce must contain 1..=256 bytes";

pub const REQUEST_ID_INVALID: &'static str = "request_id is not a valid identifier";

pub const NONCE_DIGEST_FORMAT: &'static str =
    "nonce_digest must be sha256:<64 lowercase hex characters>";

pub const NONCE_DIGEST_HEX: &'static str = "nonce_digest must be lowercase hexadecimal";

pub const CONSUMER_VERSION_LENGTH: &'static str = "consumer_version must contain 1..=96 bytes";

pub const OBSERVED_IN_FUTURE: &'static str = "observed_at is too far in the future";

/// The bytes of `sha256:`.
pub open spec fn digest_prefix() -> Seq<u8> {
    seq![115u8, 104u8, 97u8, 50u8, 53u8, 54u8, 58u8]
}

pub open spec fn lower_hex_byte(b: u8) -> bool {
    (48 <= b <= 57) || (97 <= b <= 102)
}

/// `sha256:` followed by exactly 71 bytes in all.
pub open spec fn digest_shape(bytes: Seq<u8>) -> bool {
    bytes.len() == 71 && bytes.subrange(0, 7) == digest_prefix()
}

/// Every byte after the first 7 is a lowercase hexadecimal digit.
pub open spec fn digest_hex(bytes: Seq<u8>) -> bool {
    forall|i: int| 7 <= i < bytes.len() ==> lower_hex_byte(#[trigger] bytes[i])
}

/// A well-formed `sha256:<64 lowercase hex characters>` digest.
pub open spec fn is_nonce_digest(value: Seq<char>) -> bool {
    digest_shape(encode_utf8(value)) && digest_hex(encode_utf8(value))
}

/// The checks of a `probe.completed.v1` payload that come before its
/// observation time, on its field values in field order.
pub open spec fn completed_precheck(values: Seq<Seq<char>>) -> Option<Rejection> {
    let digest = encode_utf8(values[1]);
    let version = encode_utf8(values[2]);
    if !is_valid_identifier(values[0]) {
        Some(Rejection::InvalidPayload(REQUEST_ID_INVALID@))
    } else if !digest_shape(digest) {
        Some(Rejection::InvalidPayload(NONCE_DIGEST_FORMAT@))
    } else if !digest_hex(digest) {
        Some(Rejection::InvalidPayload(NONCE_DIGEST_HEX@))
    } else if version.len() == 0 || version.len() > MAX_CONSUMER_VERSION_BYTES {
        Some(Rejection::InvalidPayload(CONSUMER_VERSION_LENGTH@))
    } else {
        None
    }
}

/// Payload validation compares an observation time with `now` plus the
/// clock skew: the payload is a `probe.completed.v1` record that passes
/// every check before that time, which parses.
pub open spec fn reads_observed_bound(e: Envelope) -> bool {
    &&& e.kind@ != PROBE_REQUESTED_V1@
    &&& e.kind@ == PROBE_COMPLETED_V1@
    &&& decoded_fields(e.payload, completed_fields()) matches Some(values) && completed_precheck(
        values,
    ) is None && rfc3339_instant(values[3]) is Some
}

/// How the payload of an envelope is refused, if it is.
pub open spec fn payload_rejection(e: Envelope, now: Timestamp) -> Option<Rejection> {
    if e.kind@ == PROBE_REQUESTED_V1@ {
        match decoded_fields(e.payload, requested_fields()) {
            None => Some(Rejection::InvalidPayload(REQUESTED_PAYLOAD_SCHEMA@)),
            Some(values) => {
                let nonce = encode_utf8(values[0]);
                if nonce.len() == 0 || nonce.len() > MAX_NONCE_BYTES {
                    Some(Rejection::InvalidPayload(NONCE_LENGTH@))
                } else {
                    None
                }
            },
        }
    } else if e.kind@ == PROBE_COMPLETED_V1@ {
        match decoded_fields(e.payload, completed_fields()) {
            None => Some(Rejection::InvalidPayload(COMPLETED_PAYLOAD_SCHEMA@)),
            Some(values) => if completed_precheck(values) is Some {
                completed_precheck(values)
            } else {
                match rfc3339_instant(values[3]) {
                    None => Some(Rejection::InvalidTimestamp("payload.observed_at"@)),
                    Some((observed, _)) => if observed > now.unix_nanos + MAX_CLOCK_SKEW_SECONDS
                        * NANOS_PER_SECOND {
                        Some(Rejection::InvalidPayload(OBSERVED_IN_FUTURE@))
                    } else {
                        None
                    },
                }
            },
        }
    } else {
        Some(Rejection::UnsupportedKind)
    }
}

fn payload_error(message: &str) -> (r: AdmissionError)
    ensures
        r@ == Rejection::InvalidPayload(message@),
{
    AdmissionError::InvalidPayload(String::from_str(message))
}

/// Checks the shape and the digits of a nonce digest.
fn check_nonce_digest(digest: &str) -> (r: Result<(), AdmissionError>)
    ensures
        match r {
            Ok(_) => digest_shape(encode_utf8(digest@)) && digest_hex(encode_utf8(digest@)),
            Err(e) => if !digest_shape(encode_utf8(digest@)) {
                e@ == Rejection::InvalidPayload(NONCE_DIGEST_FORMAT@)
            } else {
                !digest_hex(encode_utf8(digest@)) && e@ == Rejection::InvalidPayload(
                    NONCE_DIGEST_HEX@,
                )
            },
        },
{
    let bytes = digest.as_bytes();
    let prefix: [u8; 7] = [115u8, 104u8, 97u8, 50u8, 53u8, 54u8, 58u8];
    assert(prefix@ =~= digest_prefix());
    if bytes.len() != 71 || !bytes_start_with(bytes, prefix.as_slice()) {
        return Err(payload_error(NONCE_DIGEST_FORMAT));
    }
    let mut i: usize = 7;
    while i < bytes.len()
        invariant
            7 <= i <= bytes@.len(),
            bytes@ == encode_utf8(digest@),
            digest_shape(bytes@),
            forall|k: int| 7 <= k < i ==> lower_hex_byte(#[trigger] bytes@[k]),
        decreases bytes@.len() - i,
    {
        let b = bytes[i];
        if !((48 <= b && b <= 57) || (97 <= b && b <= 102)) {
            return Err(payload_error(NONCE_DIGEST_HEX));
        }
        i = i + 1;
    }
    Ok(())
}

/// The field values, in field order, of a decoded `probe.completed.v1`
/// payload.
pub open spec fn completed_values(p: ProbeCompletedPayload) -> Seq<Seq<char>> {
    seq![p.request_id@, p.nonce_digest@, p.consumer_version@, p.observed_at@]
}

/// Decodes the payload of an envelope as a `probe.completed.v1` record.
fn decode_completed_payload(envelope: &Envelope) -> (r: Option<ProbeCompletedPayload>)
    ensures
        match decoded_fields(envelope.payload, completed_fields()) {
            Some(values) => r matches Some(p) && completed_values(p) == values,
            None => r is None,
        },
{
    let fields: Vec<&str> = vec!["request_id", "nonce_digest", "consumer_version", "observed_at"];
    assert(crate::envelope::field_names(fields@) =~= completed_fields());
    proof {
        reveal_strlit("request_id");
        reveal_strlit("nonce_digest");
        reveal_strlit("consumer_version");
        reveal_strlit("observed_at");
        assert(fields@[0]@.len() == 10);
        assert(fields@[1]@.len() == 12);
        assert(fields@[2]@.len() == 16);
        assert(fields@[3]@.len() == 11);
    }
    let values = match decode_string_fields(&envelope.payload, &fields) {
        Some(values) => values,
        None => return None,
    };
    let payload = ProbeCompletedPayload {
        request_id: values[0].clone(),
        nonce_digest: values[1].clone(),
        consumer_version: values[2].clone(),
        observed_at: values[3].clone(),
    };
    assert(completed_values(payload) =~= crate::envelope::string_views(values@));
    Some(payload)
}

/// Checks a `probe.completed.v1` payload up to its observation time, and
/// parses that time.
fn check_completed_payload(payload: &ProbeCompletedPayload) -> (r: Result<Timestamp, AdmissionError>)
    ensures
        match completed_precheck(completed_values(*payload)) {
            Some(rejection) => r matches Err(e) && e@ == rejection,
            None => match rfc3339_instant(payload.observed_at@) {
                None => r matches Err(e) && e@ == Rejection::InvalidTimestamp(
                    "payload.observed_at"@,
                ),
                Some((unix_nanos, offset_seconds)) => r matches Ok(t) && t.unix_nanos
                    == unix_nanos && t.offset_seconds == offset_seconds,
            },
        },
{
    if !valid_identifier(payload.request_id.as_str()) {
        return Err(payload_error(REQUEST_ID_INVALID));
    }
    match check_nonce_digest(payload.nonce_digest.as_str()) {
        Ok(_) => {},
        Err(e) => return Err(e),
    }
    let version_len = payload.consumer_version.as_str().as_bytes().len();
    if version_len == 0 || version_len > MAX_CONSUMER_VERSION_BYTES {
        return Err(payload_error(CONSUMER_VERSION_LENGTH));
    }
    match parse_rfc3339(payload.observed_at.as_str()) {
        Some(t) => Ok(t),
        None => Err(AdmissionError::InvalidTimestamp("payload.observed_at")),
    }
}

/// Checks the payload of an envelope against the schema of its kind.
pub fn validate_payload(envelope: &Envelope, now: &Timestamp) -> (r: Result<(), AdmissionError>)
    requires
        reads_observed_bound(*envelope) ==> now.room_after(MAX_CLOCK_SKEW_SECONDS as int),
    ensures
        match payload_rejection(*envelope, *now) {
            Some(rejection) => r matches Err(e) && e@ == rejection,
            None => r is Ok,
        },
{
    if str_equal(envelope.kind.as_str(), PROBE_REQUESTED_V1) {
        let fields: Vec<&str> = vec!["nonce"];
        assert(crate::envelope::field_names(fields@) =~= requested_fields());
        let values = match decode_string_fields(&envelope.payload, &fields) {
            Some(values) => values,
            None => return Err(payload_error(REQUESTED_PAYLOAD_SCHEMA)),
        };
        let payload = ProbeRequestedPayload { nonce: values[0].clone() };
        let len = payload.nonce.as_str().as_bytes().len();
        if len == 0 || len > MAX_NONCE_BYTES {
            return Err(payload_error(NONCE_LENGTH));
        }
        Ok(())
    } else if str_equal(envelope.kind.as_str(), PROBE_COMPLETED_V1) {
        let payload = match decode_completed_payload(envelope) {
            Some(payload) => payload,
            None => return Err(payload_error(COMPLETED_PAYLOAD_SCHEMA)),
        };
        let observed_at = match check_completed_payload(&payload) {
            Ok(t) => t,
            Err(e) => return Err(e),
        };
        if observed_at.unix_nanos > now.unix_nanos + MAX_CLOCK_SKEW_SECONDS * NANOS_PER_SECOND {
            return Err(payload_error(OBSERVED_IN_FUTURE));
        }
        Ok(())
    } else {
        Err(AdmissionError::UnsupportedKind)
    }
}


/// How an envelope is refused by validation at the instant `now`, if it is:
/// the checks in order, the first that fails.
pub open spec fn envelope_rejection(e: Envelope, now: Timestamp) -> Option<Rejection> {
    if e.spec@ != EVENT_SPEC_V1@ {
        Some(Rejection::UnsupportedSpec)
    } else if !is_valid_identifier(e.id@) {
        Some(Rejection::InvalidIdentifier("id"@))
    } else if !is_valid_identifier(e.issuer@) {
        Some(Rejection::InvalidIdentifier("issuer"@))
    } else if !is_valid_identifier(e.key_id@) {
        Some(Rejection::InvalidIdentifier("key_id"@))
    } else if !is_valid_identifier(e.target@) {
        Some(Rejection::InvalidIdentifier("target"@))
    } else if !is_valid_identifier(e.correlation_id@) {
        Some(Rejection::InvalidIdentifier("correlation_id"@))
    } else if e.causation_id matches Some(c) && !is_valid_identifier(c@) {
        Some(Rejection::InvalidIdentifier("causation_id"@))
    } else if payload_rejection(e, now) is Some {
        payload_rejection(e, now)
    } else {
        match rfc3339_instant(e.issued_at@) {
            None => Some(Rejection::InvalidTimestamp("issued_at"@)),
            Some((issued, _)) => match rfc3339_instant(e.expires_at@) {
                None => Some(Rejection::InvalidTimestamp("expires_at"@)),
                Some((expires, _)) => time_rejection(issued as int, expires as int, now.unix_nanos as int),
            },
        }
    }
}

/// The header members come before the payload and the times: the spec and
/// the identifiers are valid.
pub open spec fn header_valid(e: Envelope) -> bool {
    &&& e.spec@ == EVENT_SPEC_V1@
    &&& is_valid_identifier(e.id@)
    &&& is_valid_identifier(e.issuer@)
    &&& is_valid_identifier(e.key_id@)
    &&& is_valid_identifier(e.target@)
    &&& is_valid_identifier(e.correlation_id@)
    &&& (e.causation_id matches Some(c) ==> is_valid_identifier(c@))
}

/// Validation of `e` at `now` computes `now` plus the clock skew.
pub open spec fn reads_skew_bound(e: Envelope, now: Timestamp) -> bool {
    &&& header_valid(e)
    &&& (reads_observed_bound(e) || (payload_rejection(e, now) is None && rfc3339_instant(
        e.issued_at@,
    ) is Some && rfc3339_instant(e.expires_at@) is Some))
}

/// Validation of `e` at `now` computes `now` minus the admission age.
pub open spec fn reads_age_bound(e: Envelope, now: Timestamp) -> bool {
    &&& header_valid(e)
    &&& payload_rejection(e, now) is None
    &&& rfc3339_instant(e.expires_at@) is Some
    &&& rfc3339_instant(e.issued_at@) matches Some((issued, _)) && issued <= now.unix_nanos
        + MAX_CLOCK_SKEW_SECONDS * NANOS_PER_SECOND
}

/// Where validation moves `now` by the clock skew or the admission age, the
/// result stays within the calendar of `time::OffsetDateTime` (whose
/// arithmetic panics beyond it).
pub open spec fn clock_in_range(e: Envelope, now: Timestamp) -> bool {
    &&& reads_skew_bound(e, now) ==> now.room_after(MAX_CLOCK_SKEW_SECONDS as int)
    &&& reads_age_bound(e, now) ==> now.room_before(MAX_EVENT_AGE_SECONDS as int)
}

/// Whether the header members are valid: the spec and the identifiers.
fn header_is_valid(envelope: &Envelope) -> (r: bool)
    ensures
        r == header_valid(*envelope),
{
    if !str_equal(envelope.spec.as_str(), EVENT_SPEC_V1) || !valid_identifier(envelope.id.as_str())
        || !valid_identifier(envelope.issuer.as_str()) || !valid_identifier(
        envelope.key_id.as_str(),
    ) || !valid_identifier(envelope.target.as_str()) || !valid_identifier(
        envelope.correlation_id.as_str(),
    ) {
        return false;
    }
    match &envelope.causation_id {
        Some(causation_id) => valid_identifier(causation_id.as_str()),
        None => true,
    }
}

/// Whether payload validation of `envelope` compares an observation time
/// with `now` plus the clock skew.
fn observation_is_bounded(envelope: &Envelope) -> (r: bool)
    ensures
        r == reads_observed_bound(*envelope),
{
    if str_equal(envelope.kind.as_str(), PROBE_REQUESTED_V1) || !str_equal(
        envelope.kind.as_str(),
        PROBE_COMPLETED_V1,
    ) {
        return false;
    }
    match decode_completed_payload(envelope) {
        Some(payload) => check_completed_payload(&payload).is_ok(),
        None => false,
    }
}

/// Whether validating `envelope` at `now` keeps within the calendar where it
/// moves `now` by the clock skew or the event age: exactly the precondition
/// of `validate_envelope` and `admit_envelope`.
pub fn validation_clock_fits(envelope: &Envelope, now: &Timestamp) -> (r: bool)
    ensures
        r == clock_in_range(*envelope, *now),
{
    let after = has_room_after(now, 60);
    let before = has_room_before(now, 900);
    if after && before {
        return true;
    }
    if !header_is_valid(envelope) {
        return true;
    }
    let observed = observation_is_bounded(envelope);
    if observed && !after {
        return false;
    }
    let payload_ok = validate_payload(envelope, now).is_ok();
    let issued = parse_rfc3339(envelope.issued_at.as_str());
    let expires = parse_rfc3339(envelope.expires_at.as_str());
    let times_parse = issued.is_some() && expires.is_some();
    if (observed || (payload_ok && times_parse)) && !after {
        return false;
    }
    if let Some(t) = issued {
        if payload_ok && times_parse && !before && t.unix_nanos <= now.unix_nanos
            + MAX_CLOCK_SKEW_SECONDS * NANOS_PER_SECOND {
            return false;
        }
    }
    true
}

/// How the issue and expiry instants of an event are refused at the instant
/// `now` (all in nanoseconds since the epoch), if they are.
pub open spec fn time_rejection(issued: int, expires: int, now: int) -> Option<Rejection> {
    if issued > now + MAX_CLOCK_SKEW_SECONDS * NANOS_PER_SECOND {
        Some(Rejection::IssuedInFuture)
    } else if issued < now - MAX_EVENT_AGE_SECONDS * NANOS_PER_SECOND {
        Some(Rejection::EventTooOld)
    } else if expires <= issued {
        Some(Rejection::InvalidExpiryOrder)
    } else if expires - issued > MAX_TTL_SECONDS * NANOS_PER_SECOND {
        Some(Rejection::ExcessiveTtl)
    } else if now > expires {
        Some(Rejection::Expired)
    } else {
        None
    }
}

fn check_identifier(value: &str, field: &'static str) -> (r: Result<(), AdmissionError>)
    ensures
        match r {
            Ok(_) => is_valid_identifier(value@),
            Err(e) => !is_valid_identifier(value@) && e@ == Rejection::InvalidIdentifier(field@),
        },
{
    if valid_identifier(value) {
        Ok(())
    } else {
        Err(AdmissionError::InvalidIdentifier(field))
    }
}

fn parse_timestamp(value: &str, field: &'static str) -> (r: Result<Timestamp, AdmissionError>)
    ensures
        match rfc3339_instant(value@) {
            Some((unix_nanos, offset_seconds)) => r matches Ok(t) && t.unix_nanos == unix_nanos
                && t.offset_seconds == offset_seconds,
            None => r matches Err(e) && e@ == Rejection::InvalidTimestamp(field@),
        },
{
    match parse_rfc3339(value) {
        Some(t) => Ok(t),
        None => Err(AdmissionError::InvalidTimestamp(field)),
    }
}

/// Validates an envelope at the instant `now`: `Ok` exactly when
/// `envelope_rejection` finds nothing, else the error it names.
pub fn validate_envelope(envelope: &Envelope, now: &Timestamp) -> (r: Result<(), AdmissionError>)
    requires
        clock_in_range(*envelope, *now),
    ensures
        match envelope_rejection(*envelope, *now) {
            Some(rejection) => r matches Err(e) && e@ == rejection,
            None => r is Ok,
        },
{
    if !str_equal(envelope.spec.as_str(), EVENT_SPEC_V1) {
        return Err(AdmissionError::UnsupportedSpec);
    }
    match check_identifier(envelope.id.as_str(), "id") {
        Ok(_) => {},
        Err(e) => return Err(e),
    }
    match check_identifier(envelope.issuer.as_str(), "issuer") {
        Ok(_) => {},
        Err(e) => return Err(e),
    }
    match check_identifier(envelope.key_id.as_str(), "key_id") {
        Ok(_) => {},
        Err(e) => return Err(e),
    }
    match check_identifier(envelope.target.as_str(), "target") {
        Ok(_) => {},
        Err(e) => return Err(e),
    }
    match check_identifier(envelope.correlation_id.as_str(), "correlation_id") {
        Ok(_) => {},
        Err(e) => return Err(e),
    }
    if let Some(causation_id) = &envelope.causation_id {
        match check_identifier(causation_id.as_str(), "causation_id") {
            Ok(_) => {},
            Err(e) => return Err(e),
        }
    }
    match validate_payload(envelope, now) {
        Ok(_) => {},
        Err(e) => return Err(e),
    }
    let issued_at = match parse_timestamp(envelope.issued_at.as_str(), "issued_at") {
        Ok(t) => t.unix_nanos,
        Err(e) => return Err(e),
    };
    let expires_at = match parse_timestamp(envelope.expires_at.as_str(), "expires_at") {
        Ok(t) => t.unix_nanos,
        Err(e) => return Err(e),
    };
    let current = now.unix_nanos;
    if issued_at > current + MAX_CLOCK_SKEW_SECONDS * NANOS_PER_SECOND {
        return Err(AdmissionError::IssuedInFuture);
    }
    if issued_at < current - MAX_EVENT_AGE_SECONDS * NANOS_PER_SECOND {
        return Err(AdmissionError::EventTooOld);
    }
    if expires_at <= issued_at {
        return Err(AdmissionError::InvalidExpiryOrder);
    }
    if expires_at > issued_at + MAX_TTL_SECONDS * NANOS_PER_SECOND {
        return Err(AdmissionError::ExcessiveTtl);
    }
    if current > expires_at {
        return Err(AdmissionError::Expired);
    }
    Ok(())
}


pub const ADMISSION_RECORD_V1: &'static str = "grey-signal/admission/v1";

/// Facts about the admission run, supplied by the workflow that admits.
#[derive(Debug, Clone)]
pub struct AdmissionMetadata {
    pub policy_commit: String,
    pub workflow_run_id: String,
    pub workflow_run_attempt: u64,
    pub admitted_at: Timestamp,
}

/// The evidence recorded with an admitted event.
#[derive(Debug, Clone)]
pub struct AdmissionEvidence {
    pub policy_commit: String,
    pub workflow_run_id: String,
    pub workflow_run_attempt: u64,
    pub admitted_at: String,
}

/// The ledger record of an admitted event.
#[derive(Debug, Clone)]
pub struct AdmissionRecord {
    pub record: String,
    pub admission: AdmissionEvidence,
    pub event_digest: String,
    pub event: Envelope,
}

/// What a producer is granted: events of `kind` addressed to `targets`.
#[derive(Debug)]
pub struct Grant {
    pub kind: String,
    pub targets: Vec<String>,
}

/// The public registry entry of one issuer: its public keys by key id
/// (base64url Ed25519 keys; no key id twice, see `key_ids_distinct`), and its
/// grants.
#[derive(Debug)]
pub struct ProducerRegistry {
    pub issuer: String,
    pub keys: Vec<(String, String)>,
    pub grants: Vec<Grant>,
}

impl ProducerRegistry {
    /// No key id is listed twice: the keys form a map from key id to key.
    pub open spec fn key_ids_distinct(self) -> bool {
        forall|i: int, j: int|
            0 <= i < j < self.keys@.len() ==> (#[trigger] self.keys@[i]).0@ != (
            #[trigger] self.keys@[j]).0@
    }

    /// Whether no key id is listed twice.
    pub fn has_distinct_key_ids(&self) -> (r: bool)
        ensures
            r == self.key_ids_distinct(),
    {
        let mut j: usize = 0;
        while j < self.keys.len()
            invariant
                j <= self.keys@.len(),
                forall|a: int, b: int|
                    0 <= a < b < j ==> (#[trigger] self.keys@[a]).0@ != (#[trigger] self.keys@[b]).0@,
            decreases self.keys@.len() - j,
        {
            let mut i: usize = 0;
            while i < j
                invariant
                    i <= j < self.keys@.len(),
                    forall|a: int, b: int|
                        0 <= a < b < j ==> (#[trigger] self.keys@[a]).0@ != (
                        #[trigger] self.keys@[b]).0@,
                    forall|a: int| 0 <= a < i ==> (#[trigger] self.keys@[a]).0@ != self.keys@[j as int].0@,
                decreases j - i,
            {
                if self.keys[i].0 == self.keys[j].0 {
                    assert(self.keys@[i as int].0@ == self.keys@[j as int].0@);
                    return false;
                }
                i = i + 1;
            }
            j = j + 1;
        }
        true
    }
}

/// A grant allows events of this kind to this target.
pub open spec fn grant_allows(grant: Grant, kind: Seq<char>, target: Seq<char>) -> bool {
    &&& grant.kind@ == kind
    &&& exists|t: int| 0 <= t < grant.targets@.len() && (#[trigger] grant.targets@[t])@ == target
}

/// Some grant of the registry allows the envelope's kind and target.
pub open spec fn is_authorized(registry: ProducerRegistry, e: Envelope) -> bool {
    exists|g: int|
        0 <= g < registry.grants@.len() && grant_allows(
            #[trigger] registry.grants@[g],
            e.kind@,
            e.target@,
        )
}

/// The public key text registered under `key_id`: the first entry with it.
pub open spec fn registered_key(keys: Seq<(String, String)>, key_id: Seq<char>) -> Option<Seq<char>>
    decreases keys.len(),
{
    if keys.len() == 0 {
        None
    } else if keys[0].0@ == key_id {
        Some(keys[0].1@)
    } else {
        registered_key(keys.drop_first(), key_id)
    }
}

/// The 32 bytes of an Ed25519 public key written in base64url, if the text
/// decodes to 32 bytes that are a curve point.
pub open spec fn public_key_bytes(text: Seq<char>) -> Option<Seq<u8>> {
    match base64url_decode(encode_utf8(text)) {
        Some(bytes) => if bytes.len() == 32 && ed25519_point_decodes(bytes) {
            Some(bytes)
        } else {
            None
        },
        None => None,
    }
}

/// The 64 bytes of a signature written in base64url, if the text decodes to
/// 64 bytes.
pub open spec fn signature_bytes(text: Seq<char>) -> Option<Seq<u8>> {
    match base64url_decode(encode_utf8(text)) {
        Some(bytes) => if bytes.len() == 64 {
            Some(bytes)
        } else {
            None
        },
        None => None,
    }
}

/// The digest recorded for an admitted event: `sha256:` and the lowercase
/// hexadecimal SHA-256 of the canonical bytes of the whole event.
pub open spec fn event_digest_text(e: Envelope) -> Seq<char> {
    "sha256:"@ + hex_lower(sha256(encode_utf8(event_text(e))))
}

/// How an envelope is refused, given the registry entry of its issuer (or
/// the error met loading it), at the instant `now`; `None` when admitted.
pub open spec fn admission_rejection(
    e: Envelope,
    registry: Result<ProducerRegistry, AdmissionError>,
    now: Timestamp,
    metadata: AdmissionMetadata,
) -> Option<Rejection> {
    if envelope_rejection(e, now) is Some {
        envelope_rejection(e, now)
    } else {
        match registry {
            Err(error) => Some(error@),
            Ok(reg) => if reg.issuer@ != e.issuer@ {
                Some(Rejection::RegistryIssuerMismatch)
            } else if !is_authorized(reg, e) {
                Some(Rejection::Unauthorized)
            } else {
                match registered_key(reg.keys@, e.key_id@) {
                    None => Some(Rejection::UnknownKey),
                    Some(key_text) => match public_key_bytes(key_text) {
                        None => Some(Rejection::InvalidPublicKey),
                        Some(key) => match signature_bytes(e.signature@) {
                            None => Some(Rejection::InvalidSignatureEncoding),
                            Some(signature) => if !ed25519_verify_strict(
                                key,
                                encode_utf8(unsigned_text(e)),
                                signature,
                            ) {
                                Some(Rejection::InvalidSignature)
                            } else if admission_time_text(metadata.admitted_at) is None {
                                Some(Rejection::Canonicalization)
                            } else {
                                None
                            },
                        },
                    },
                }
            },
        }
    }
}

/// The record made for an admitted envelope.
pub open spec fn is_admission_record(
    record: AdmissionRecord,
    e: Envelope,
    metadata: AdmissionMetadata,
) -> bool {
    &&& record.record@ == ADMISSION_RECORD_V1@
    &&& record.admission.policy_commit == metadata.policy_commit
    &&& record.admission.workflow_run_id == metadata.workflow_run_id
    &&& record.admission.workflow_run_attempt == metadata.workflow_run_attempt
    &&& admission_time_text(metadata.admitted_at)
        == Some(record.admission.admitted_at@)
    &&& record.event_digest@ == event_digest_text(e)
    &&& record.event == e
}

fn is_granted(registry: &ProducerRegistry, envelope: &Envelope) -> (r: bool)
    ensures
        r == is_authorized(*registry, *envelope),
{
    let mut g: usize = 0;
    while g < registry.grants.len()
        invariant
            g <= registry.grants@.len(),
            forall|k: int|
                0 <= k < g ==> !grant_allows(
                    #[trigger] registry.grants@[k],
                    envelope.kind@,
                    envelope.target@,
                ),
        decreases registry.grants@.len() - g,
    {
        let grant = &registry.grants[g];
        if grant.kind == envelope.kind {
            let mut t: usize = 0;
            while t < grant.targets.len()
                invariant
                    g < registry.grants@.len(),
                    *grant == registry.grants@[g as int],
                    grant.kind@ == envelope.kind@,
                    t <= grant.targets@.len(),
                    forall|k: int| 0 <= k < t ==> (#[trigger] grant.targets@[k])@ != envelope.target@,
                decreases grant.targets@.len() - t,
            {
                if grant.targets[t] == envelope.target {
                    assert(grant.targets@[t as int]@ == envelope.target@);
                    assert(grant_allows(registry.grants@[g as int], envelope.kind@, envelope.target@));
                    return true;
                }
                t = t + 1;
            }
        }
        g = g + 1;
    }
    false
}

fn find_key(keys: &Vec<(String, String)>, key_id: &String) -> (r: Option<usize>)
    ensures
        match registered_key(keys@, key_id@) {
            Some(text) => r matches Some(i) && i < keys@.len() && keys@[i as int].1@ == text,
            None => r is None,
        },
{
    let mut i: usize = 0;
    assert(keys@.skip(0) =~= keys@);
    while i < keys.len()
        invariant
            i <= keys@.len(),
            registered_key(keys@, key_id@) == registered_key(keys@.skip(i as int), key_id@),
        decreases keys@.len() - i,
    {
        if keys[i].0 == *key_id {
            return Some(i);
        }
        assert(keys@.skip(i as int).drop_first() =~= keys@.skip(i + 1));
        i = i + 1;
    }
    None
}

/// Decodes a registered public key: base64url text of 32 bytes that are a
/// curve point.
pub fn decode_public_key(encoded: &str) -> (r: Result<[u8; 32], AdmissionError>)
    ensures
        match public_key_bytes(encoded@) {
            Some(bytes) => r matches Ok(key) && key@ == bytes,
            None => r matches Err(e) && e@ == Rejection::InvalidPublicKey,
        },
{
    let bytes = match decode_base64url(encoded) {
        Some(bytes) => bytes,
        None => return Err(AdmissionError::InvalidPublicKey),
    };
    if bytes.len() != 32 {
        return Err(AdmissionError::InvalidPublicKey);
    }
    let mut key = [0u8; 32];
    for i in 0..32
        invariant
            bytes@.len() == 32,
            forall|k: int| 0 <= k < i ==> key@[k] == bytes@[k],
    {
        key[i] = bytes[i];
    }
    assert(key@ =~= bytes@);
    if !ed25519_key_decodes(&key) {
        return Err(AdmissionError::InvalidPublicKey);
    }
    Ok(key)
}

/// Decodes a signature: base64url text of 64 bytes.
pub fn decode_signature(encoded: &str) -> (r: Result<[u8; 64], AdmissionError>)
    ensures
        match signature_bytes(encoded@) {
            Some(bytes) => r matches Ok(signature) && signature@ == bytes,
            None => r matches Err(e) && e@ == Rejection::InvalidSignatureEncoding,
        },
{
    let bytes = match decode_base64url(encoded) {
        Some(bytes) => bytes,
        None => return Err(AdmissionError::InvalidSignatureEncoding),
    };
    if bytes.len() != 64 {
        return Err(AdmissionError::InvalidSignatureEncoding);
    }
    let mut signature = [0u8; 64];
    for i in 0..64
        invariant
            bytes@.len() == 64,
            forall|k: int| 0 <= k < i ==> signature@[k] == bytes@[k],
    {
        signature[i] = bytes[i];
    }
    assert(signature@ =~= bytes@);
    Ok(signature)
}


/// Refuses raw envelope bytes longer than `MAX_ENVELOPE_BYTES`, before they
/// are parsed.
pub fn check_envelope_size(raw: &[u8]) -> (r: Result<(), AdmissionError>)
    ensures
        match r {
            Ok(_) => raw@.len() <= MAX_ENVELOPE_BYTES,
            Err(e) => raw@.len() > MAX_ENVELOPE_BYTES && e@ == Rejection::EnvelopeTooLarge,
        },
{
    if raw.len() > MAX_ENVELOPE_BYTES {
        Err(AdmissionError::EnvelopeTooLarge)
    } else {
        Ok(())
    }
}

/// The name of the registry file of an issuer: `<issuer>.json`.
pub fn registry_file_name(issuer: &str) -> (r: String)
    ensures
        r@ == issuer@ + ".json"@,
{
    let mut name = String::from_str(issuer);
    name.append(".json");
    name
}

/// Admits a parsed envelope at the instant `now`, given the registry entry of
/// its issuer, or the error met loading it (which counts only once the
/// envelope itself is valid). On admission, returns the ledger record: the
/// evidence of the run, the digest of the canonical event, and the event.
pub fn admit_envelope(
    envelope: Envelope,
    registry: Result<ProducerRegistry, AdmissionError>,
    now: &Timestamp,
    metadata: AdmissionMetadata,
) -> (r: Result<AdmissionRecord, AdmissionError>)
    requires
        clock_in_range(envelope, *now),
        registry matches Ok(reg) ==> reg.key_ids_distinct(),
    ensures
        match admission_rejection(envelope, registry, *now, metadata) {
            Some(rejection) => r matches Err(e) && e@ == rejection,
            None => r matches Ok(record) && is_admission_record(record, envelope, metadata)
                && is_nonce_digest(record.event_digest@),
        },
{
    match validate_envelope(&envelope, now) {
        Ok(_) => {},
        Err(e) => return Err(e),
    }
    let registry = match registry {
        Ok(registry) => registry,
        Err(e) => return Err(e),
    };
    if registry.issuer != envelope.issuer {
        return Err(AdmissionError::RegistryIssuerMismatch);
    }
    if !is_granted(&registry, &envelope) {
        return Err(AdmissionError::Unauthorized);
    }
    let index = match find_key(&registry.keys, &envelope.key_id) {
        Some(index) => index,
        None => return Err(AdmissionError::UnknownKey),
    };
    let key = match decode_public_key(registry.keys[index].1.as_str()) {
        Ok(key) => key,
        Err(e) => return Err(e),
    };
    let signature = match decode_signature(envelope.signature.as_str()) {
        Ok(signature) => signature,
        Err(e) => return Err(e),
    };
    let signed_bytes = match unsigned_bytes(&envelope) {
        Ok(bytes) => bytes,
        Err(_) => return Err(AdmissionError::Canonicalization),
    };
    if !ed25519_verifies_strictly(&key, signed_bytes.as_slice(), &signature) {
        return Err(AdmissionError::InvalidSignature);
    }
    let full_event = match full_event_bytes(&envelope) {
        Ok(bytes) => bytes,
        Err(_) => return Err(AdmissionError::Canonicalization),
    };
    let digest = sha256_digest(full_event.as_slice());
    let mut event_digest = String::from_str("sha256:");
    let digest_hex = encode_hex(digest.as_slice());
    event_digest.append(digest_hex.as_str());
    proof {
        lemma_digest_text_is_nonce_digest(digest@);
    }
    let admitted_at = match format_admission_time(&metadata.admitted_at) {
        Some(text) => text,
        None => return Err(AdmissionError::Canonicalization),
    };
    Ok(AdmissionRecord {
        record: String::from_str(ADMISSION_RECORD_V1),
        admission: AdmissionEvidence {
            policy_commit: metadata.policy_commit,
            workflow_run_id: metadata.workflow_run_id,
            workflow_run_attempt: metadata.workflow_run_attempt,
            admitted_at,
        },
        event_digest,
        event: envelope,
    })
}


/// Validation does not read the signature: envelopes that differ only in
/// their signature are refused alike.
pub proof fn lemma_validation_ignores_signature(a: Envelope, b: Envelope, now: Timestamp)
    requires
        crate::envelope::same_but_signature(a, b),
    ensures
        envelope_rejection(a, now) == envelope_rejection(b, now),
        is_authorized_for_kind_and_target(a, b),
{
    assert(payload_rejection(a, now) == payload_rejection(b, now));
}

/// A later admission time never makes a payload invalid: the observation
/// time of a completed probe is bounded only from above, by `now` plus the
/// clock skew.
pub proof fn lemma_payload_stays_valid_later(e: Envelope, now: Timestamp, later: Timestamp)
    requires
        payload_rejection(e, now) is None,
        now.unix_nanos <= later.unix_nanos,
    ensures
        payload_rejection(e, later) is None,
{
}

/// Authorization reads only the kind and the target.
pub open spec fn is_authorized_for_kind_and_target(a: Envelope, b: Envelope) -> bool {
    forall|registry: ProducerRegistry| #[trigger] is_authorized(registry, a) == is_authorized(registry, b)
}

/// The instant an RFC 3339 timestamp denotes, in nanoseconds since the
/// epoch (0 where the text is not a timestamp).
pub open spec fn instant_nanos(text: Seq<char>) -> int {
    match rfc3339_instant(text) {
        Some((unix_nanos, _)) => unix_nanos as int,
        None => 0,
    }
}

/// Admission window: an envelope that validation accepts at `now` was issued
/// at most `MAX_CLOCK_SKEW_SECONDS` after `now` and at most
/// `MAX_EVENT_AGE_SECONDS` before it, expires after it was issued and at most
/// `MAX_TTL_SECONDS` later, and has not expired at `now`.
pub proof fn lemma_admission_window(e: Envelope, now: Timestamp)
    requires
        envelope_rejection(e, now) is None,
    ensures
        rfc3339_instant(e.issued_at@) is Some,
        rfc3339_instant(e.expires_at@) is Some,
        ({
            let issued = instant_nanos(e.issued_at@);
            let expires = instant_nanos(e.expires_at@);
            let current = now.unix_nanos as int;
            &&& current - MAX_EVENT_AGE_SECONDS * NANOS_PER_SECOND <= issued
            &&& issued <= current + MAX_CLOCK_SKEW_SECONDS * NANOS_PER_SECOND
            &&& issued < expires
            &&& expires - issued <= MAX_TTL_SECONDS * NANOS_PER_SECOND
            &&& current <= expires
        }),
{
}

/// Admission soundness: an admitted envelope has the protocol spec, valid
/// identifiers, one of the two v0 kinds and a payload of that kind; its issuer's registry names it,
/// grants its kind for its target, and lists its key id; and its signature
/// is a strict Ed25519 signature, under that key, of its canonical bytes
/// without the signature.
pub proof fn lemma_admission_soundness(
    e: Envelope,
    registry: ProducerRegistry,
    now: Timestamp,
    metadata: AdmissionMetadata,
)
    requires
        admission_rejection(e, Ok(registry), now, metadata) is None,
    ensures
        envelope_rejection(e, now) is None,
        e.spec@ == EVENT_SPEC_V1@,
        is_valid_identifier(e.id@),
        is_valid_identifier(e.issuer@),
        is_valid_identifier(e.key_id@),
        is_valid_identifier(e.target@),
        is_valid_identifier(e.correlation_id@),
        e.causation_id matches Some(c) ==> is_valid_identifier(c@),
        e.kind@ == PROBE_REQUESTED_V1@ || e.kind@ == PROBE_COMPLETED_V1@,
        payload_rejection(e, now) is None,
        registry.issuer@ == e.issuer@,
        is_authorized(registry, e),
        registered_key(registry.keys@, e.key_id@) matches Some(key_text) && public_key_bytes(
            key_text,
        ) matches Some(key) && signature_bytes(e.signature@) matches Some(signature)
            && ed25519_verify_strict(key, encode_utf8(unsigned_text(e)), signature),
{
}

/// Validation accepts only envelopes whose identifier members are all valid
/// identifiers: `id`, `issuer`, `key_id`, `target`, `correlation_id`, and
/// `causation_id` when present. An envelope with one invalid is refused,
/// naming the first such member.
pub proof fn lemma_validation_checks_every_identifier(e: Envelope, now: Timestamp)
    ensures
        envelope_rejection(e, now) is None ==> {
            &&& is_valid_identifier(e.id@)
            &&& is_valid_identifier(e.issuer@)
            &&& is_valid_identifier(e.key_id@)
            &&& is_valid_identifier(e.target@)
            &&& is_valid_identifier(e.correlation_id@)
            &&& (e.causation_id matches Some(c) ==> is_valid_identifier(c@))
        },
        (e.spec@ == EVENT_SPEC_V1@ && is_valid_identifier(e.id@) && is_valid_identifier(e.issuer@)
            && is_valid_identifier(e.key_id@) && is_valid_identifier(e.target@)
            && !is_valid_identifier(e.correlation_id@)) ==> envelope_rejection(e, now) == Some(
            Rejection::InvalidIdentifier("correlation_id"@),
        ),
{
}

/// Authorization: an envelope is authorized exactly when some grant of the
/// registry has the envelope's kind and lists the envelope's target.
pub proof fn lemma_authorization_is_kind_and_target(registry: ProducerRegistry, e: Envelope)
    ensures
        is_authorized(registry, e) <==> exists|g: int, t: int|
            0 <= g < registry.grants@.len() && 0 <= t < registry.grants@[g].targets@.len()
                && (#[trigger] registry.grants@[g]).kind@ == e.kind@ && (
            #[trigger] registry.grants@[g].targets@[t])@ == e.target@,
{
    if is_authorized(registry, e) {
        let g = choose|g: int|
            0 <= g < registry.grants@.len() && grant_allows(
                #[trigger] registry.grants@[g],
                e.kind@,
                e.target@,
            );
        let t = choose|t: int|
            0 <= t < registry.grants@[g].targets@.len() && (
            #[trigger] registry.grants@[g].targets@[t])@ == e.target@;
        assert(registry.grants@[g].targets@[t]@ == e.target@);
    }
    if exists|g: int, t: int|
        0 <= g < registry.grants@.len() && 0 <= t < registry.grants@[g].targets@.len()
            && (#[trigger] registry.grants@[g]).kind@ == e.kind@ && (
        #[trigger] registry.grants@[g].targets@[t])@ == e.target@ {
        let (g, t) = choose|g: int, t: int|
            0 <= g < registry.grants@.len() && 0 <= t < registry.grants@[g].targets@.len()
                && (#[trigger] registry.grants@[g]).kind@ == e.kind@ && (
            #[trigger] registry.grants@[g].targets@[t])@ == e.target@;
        assert(grant_allows(registry.grants@[g], e.kind@, e.target@));
    }
}

/// A registry with no grant of the envelope's kind refuses an otherwise
/// valid envelope of its issuer as `Unauthorized`.
pub proof fn lemma_no_grant_of_kind_is_unauthorized(
    e: Envelope,
    registry: ProducerRegistry,
    now: Timestamp,
    metadata: AdmissionMetadata,
)
    requires
        envelope_rejection(e, now) is None,
        registry.issuer@ == e.issuer@,
        forall|g: int| 0 <= g < registry.grants@.len() ==> (#[trigger] registry.grants@[g]).kind@
            != e.kind@,
    ensures
        admission_rejection(e, Ok(registry), now, metadata) == Some(Rejection::Unauthorized),
{
    lemma_authorization_is_kind_and_target(registry, e);
}

/// The key looked up under a key id is the one paired with that id: where
/// the registry lists key id `k` with key text `K` (no key id twice), an
/// envelope with key id `k` that passes validation, issuer and grant checks
/// is judged with `K`: refused when `K` is not a public key, when the
/// signature text is not 64 bytes, or when strict verification under `K`
/// fails; otherwise admitted when its admission time can be written.
pub proof fn lemma_admission_uses_key_of_key_id(
    e: Envelope,
    registry: ProducerRegistry,
    now: Timestamp,
    metadata: AdmissionMetadata,
    i: int,
)
    requires
        registry.key_ids_distinct(),
        0 <= i < registry.keys@.len(),
        registry.keys@[i].0@ == e.key_id@,
        envelope_rejection(e, now) is None,
        registry.issuer@ == e.issuer@,
        is_authorized(registry, e),
    ensures
        ({
            let verdict = admission_rejection(e, Ok(registry), now, metadata);
            match public_key_bytes(registry.keys@[i].1@) {
                None => verdict == Some(Rejection::InvalidPublicKey),
                Some(key) => match signature_bytes(e.signature@) {
                    None => verdict == Some(Rejection::InvalidSignatureEncoding),
                    Some(signature) => if !ed25519_verify_strict(
                        key,
                        encode_utf8(unsigned_text(e)),
                        signature,
                    ) {
                        verdict == Some(Rejection::InvalidSignature)
                    } else {
                        verdict is None <==> admission_time_text(metadata.admitted_at) is Some
                    },
                },
            }
        }),
{
    lemma_registered_key_is_paired(registry.keys@, e.key_id@, i);
}

/// An envelope whose key id the registry does not list is refused as
/// `UnknownKey` once it passes validation, issuer and grant checks.
pub proof fn lemma_unlisted_key_id_is_unknown(
    e: Envelope,
    registry: ProducerRegistry,
    now: Timestamp,
    metadata: AdmissionMetadata,
)
    requires
        forall|i: int| 0 <= i < registry.keys@.len() ==> (#[trigger] registry.keys@[i]).0@
            != e.key_id@,
        envelope_rejection(e, now) is None,
        registry.issuer@ == e.issuer@,
        is_authorized(registry, e),
    ensures
        admission_rejection(e, Ok(registry), now, metadata) == Some(Rejection::UnknownKey),
{
    lemma_registered_key_unlisted(registry.keys@, e.key_id@);
}

/// The text registered under a key id is the key paired with that id.
pub proof fn lemma_registered_key_is_paired(keys: Seq<(String, String)>, key_id: Seq<char>, i: int)
    requires
        forall|a: int, b: int| 0 <= a < b < keys.len() ==> (#[trigger] keys[a]).0@ != (
        #[trigger] keys[b]).0@,
        0 <= i < keys.len(),
        keys[i].0@ == key_id,
    ensures
        registered_key(keys, key_id) == Some(keys[i].1@),
    decreases keys.len(),
{
    if i > 0 {
        assert(keys[0].0@ != keys[i].0@);
        let rest = keys.drop_first();
        assert forall|a: int, b: int| 0 <= a < b < rest.len() implies (#[trigger] rest[a]).0@ != (
        #[trigger] rest[b]).0@ by {
            assert(rest[a] == keys[a + 1] && rest[b] == keys[b + 1]);
        }
        assert(rest[i - 1] == keys[i]);
        lemma_registered_key_is_paired(rest, key_id, i - 1);
    }
}

/// No text is registered under a key id that no entry has.
pub proof fn lemma_registered_key_unlisted(keys: Seq<(String, String)>, key_id: Seq<char>)
    requires
        forall|i: int| 0 <= i < keys.len() ==> (#[trigger] keys[i]).0@ != key_id,
    ensures
        registered_key(keys, key_id) is None,
    decreases keys.len(),
{
    if keys.len() > 0 {
        let rest = keys.drop_first();
        assert(keys[0].0@ != key_id);
        assert forall|i: int| 0 <= i < rest.len() implies (#[trigger] rest[i]).0@ != key_id by {
            assert(rest[i] == keys[i + 1]);
        }
        lemma_registered_key_unlisted(rest, key_id);
    }
}

/// The observation time of a completed probe counts only as the instant it
/// denotes: an instant at most `now` plus the clock skew is never refused as
/// too far in the future.
pub proof fn lemma_observation_within_skew_is_not_future(
    e: Envelope,
    now: Timestamp,
    values: Seq<Seq<char>>,
    observed: i128,
    offset: i32,
)
    requires
        e.kind@ == PROBE_COMPLETED_V1@,
        decoded_fields(e.payload, completed_fields()) == Some(values),
        rfc3339_instant(values[3]) == Some((observed, offset)),
        observed <= now.unix_nanos + MAX_CLOCK_SKEW_SECONDS * NANOS_PER_SECOND,
    ensures
        payload_rejection(e, now) != Some(Rejection::InvalidPayload(OBSERVED_IN_FUTURE@)),
        completed_precheck(values) is None ==> payload_rejection(e, now) is None,
{
    reveal_strlit("probe.requested.v1");
    reveal_strlit("probe.completed.v1");
    assert(PROBE_REQUESTED_V1@ != PROBE_COMPLETED_V1@) by {
        assert(PROBE_REQUESTED_V1@[6] != PROBE_COMPLETED_V1@[6]);
    }
    if completed_precheck(values) is Some {
        lemma_precheck_is_not_future(values);
    }
}

proof fn lemma_precheck_is_not_future(values: Seq<Seq<char>>)
    ensures
        completed_precheck(values) != Some(Rejection::InvalidPayload(OBSERVED_IN_FUTURE@)),
{
    reveal_strlit("request_id is not a valid identifier");
    reveal_strlit("nonce_digest must be sha256:<64 lowercase hex characters>");
    reveal_strlit("nonce_digest must be lowercase hexadecimal");
    reveal_strlit("consumer_version must contain 1..=96 bytes");
    reveal_strlit("observed_at is too far in the future");
    assert(REQUEST_ID_INVALID@[0] != OBSERVED_IN_FUTURE@[0]);
    assert(NONCE_DIGEST_FORMAT@[0] != OBSERVED_IN_FUTURE@[0]);
    assert(NONCE_DIGEST_HEX@[0] != OBSERVED_IN_FUTURE@[0]);
    assert(CONSUMER_VERSION_LENGTH@[0] != OBSERVED_IN_FUTURE@[0]);
}

/// An observation instant later than `now` plus the clock skew is refused
/// as too far in the future, once the other completed-probe checks pass.
pub proof fn lemma_observation_beyond_skew_is_future(
    e: Envelope,
    now: Timestamp,
    values: Seq<Seq<char>>,
    observed: i128,
    offset: i32,
)
    requires
        e.kind@ == PROBE_COMPLETED_V1@,
        decoded_fields(e.payload, completed_fields()) == Some(values),
        completed_precheck(values) is None,
        rfc3339_instant(values[3]) == Some((observed, offset)),
        observed > now.unix_nanos + MAX_CLOCK_SKEW_SECONDS * NANOS_PER_SECOND,
    ensures
        payload_rejection(e, now) == Some(Rejection::InvalidPayload(OBSERVED_IN_FUTURE@)),
{
    reveal_strlit("probe.requested.v1");
    reveal_strlit("probe.completed.v1");
    assert(PROBE_REQUESTED_V1@ != PROBE_COMPLETED_V1@) by {
        assert(PROBE_REQUESTED_V1@[6] != PROBE_COMPLETED_V1@[6]);
    }
}

/// The characters of identifiers: an identifier is 1 to `MAX_ID_LEN` ASCII
/// letters, digits, `_`, `-`, `.` and `:`, and every such text is one.
pub proof fn lemma_identifier_alphabet(value: Seq<char>)
    ensures
        is_valid_identifier(value) <==> (0 < value.len() <= MAX_ID_LEN && forall|i: int|
            0 <= i < value.len() ==> {
                let c = #[trigger] value[i];
                ||| 'a' <= c <= 'z'
                ||| 'A' <= c <= 'Z'
                ||| '0' <= c <= '9'
                ||| c == '_'
                ||| c == '-'
                ||| c == '.'
                ||| c == ':'
            }),
{
    lemma_identifier_chars(value);
    assert forall|i: int| 0 <= i < value.len() implies identifier_char(#[trigger] value[i]) <==> {
        let c = value[i];
        ||| 'a' <= c <= 'z'
        ||| 'A' <= c <= 'Z'
        ||| '0' <= c <= '9'
        ||| c == '_'
        ||| c == '-'
        ||| c == '.'
        ||| c == ':'
    } by {
        let c = value[i];
        vstd::utf8::char_u32_cast(c, c as u32);
    }
}

/// Payload validation reads the observation time only as an instant: two
/// completed probes with the same other fields whose observation texts
/// denote the same instant, in whatever offsets, are refused alike.
pub proof fn lemma_observation_offset_is_irrelevant(
    a: Envelope,
    b: Envelope,
    now: Timestamp,
    va: Seq<Seq<char>>,
    vb: Seq<Seq<char>>,
)
    requires
        a.kind@ == PROBE_COMPLETED_V1@,
        b.kind@ == PROBE_COMPLETED_V1@,
        decoded_fields(a.payload, completed_fields()) == Some(va),
        decoded_fields(b.payload, completed_fields()) == Some(vb),
        va.len() == 4,
        vb.len() == 4,
        va[0] == vb[0],
        va[1] == vb[1],
        va[2] == vb[2],
        rfc3339_instant(va[3]) is Some,
        rfc3339_instant(vb[3]) is Some,
        instant_nanos(va[3]) == instant_nanos(vb[3]),
    ensures
        payload_rejection(a, now) == payload_rejection(b, now),
{
    reveal_strlit("probe.requested.v1");
    reveal_strlit("probe.completed.v1");
    assert(PROBE_REQUESTED_V1@ != PROBE_COMPLETED_V1@) by {
        assert(PROBE_REQUESTED_V1@[6] != PROBE_COMPLETED_V1@[6]);
    }
    assert(completed_precheck(va) == completed_precheck(vb));
}

/// The digest text of any 32 bytes, `sha256:` and 64 lowercase hexadecimal
/// digits, is a well-formed nonce digest.
pub proof fn lemma_digest_text_is_nonce_digest(digest: Seq<u8>)
    requires
        digest.len() == 32,
    ensures
        is_nonce_digest("sha256:"@ + hex_lower(digest)),
{
    reveal_strlit("sha256:");
    let text = "sha256:"@ + hex_lower(digest);
    lemma_hex_lower_ascii(digest);
    assert(vstd::utf8::is_ascii_chars(text)) by {
        assert forall|i: int| 0 <= i < text.len() implies '\0' <= #[trigger] text[i] <= '\u{7f}' by {
            if i >= 7 {
                assert(text[i] == hex_lower(digest)[i - 7]);
            } else {
                assert(text[i] == "sha256:"@[i]);
            }
        }
    }
    vstd::utf8::is_ascii_chars_encode_utf8(text);
    let bytes = encode_utf8(text);
    assert(bytes.subrange(0, 7) =~= digest_prefix());
    assert forall|i: int| 7 <= i < bytes.len() implies lower_hex_byte(#[trigger] bytes[i]) by {
        assert(text[i] == hex_lower(digest)[i - 7]);
    }
}

proof fn lemma_hex_lower_ascii(data: Seq<u8>)
    ensures
        hex_lower(data).len() == 2 * data.len(),
        forall|i: int|
            0 <= i < hex_lower(data).len() ==> {
                let c = #[trigger] hex_lower(data)[i];
                ('0' <= c <= '9') || ('a' <= c <= 'f')
            },
    decreases data.len(),
{
    if data.len() > 0 {
        lemma_hex_lower_ascii(data.drop_first());
        let h = hex_lower(data);
        let rest = hex_lower(data.drop_first());
        assert(h =~= seq![
            crate::json::hex_digit(data[0] as int / 16),
            crate::json::hex_digit(data[0] as int % 16),
        ] + rest);
        assert forall|i: int| 0 <= i < h.len() implies {
            let c = #[trigger] h[i];
            ('0' <= c <= '9') || ('a' <= c <= 'f')
        } by {
            if i >= 2 {
                assert(h[i] == rest[i - 2]);
            }
        }
    }
}

} // verus!
