//! The producer side: private key files, public keys, and envelope signing.

use vstd::prelude::*;
use vstd::string::*;
use vstd::utf8::encode_utf8;

use crate::canonical::{unsigned_bytes, unsigned_text};
use crate::codec::{base64url_decode, base64url_encode, decode_base64url, encode_base64url, is_base64url_char};
use crate::crypto::{ed25519_public_key, ed25519_public_key_of, ed25519_sign, ed25519_signature};
use crate::admission::{
    admission_rejection, envelope_rejection, is_authorized, lemma_validation_ignores_signature, public_key_bytes, registered_key,
    signature_bytes, AdmissionMetadata, ProducerRegistry, Rejection,
};
use crate::canonical::lemma_unsigned_text_ignores_signature;
use crate::clock::{admission_time_text, Timestamp};
use crate::crypto::{ed25519_point_decodes, ed25519_verify_strict};
use crate::envelope::{same_but_signature, Envelope};

verus! {

/// `std::io::Error`, carried by `ProducerError::Io`.
#[verifier::external_type_specification]
#[verifier::external_body]
pub struct ExIoError(std::io::Error);

/// Why a producer operation failed.
#[derive(Debug)]
pub enum ProducerError {
    Io(std::io::Error),
    InsecurePrivateKeyPermissions,
    InvalidPrivateKeyEncoding,
    InvalidPrivateKeyLength,
    SignatureAlreadyPresent,
    Canonicalization,
}

/// An Ed25519 signing key, held as its 32-byte secret.
#[derive(Debug, Clone, Copy)]
pub struct SigningKey {
    pub secret: [u8; 32],
}

impl SigningKey {
    pub fn from_bytes(secret: &[u8; 32]) -> (r: SigningKey)
        ensures
            r.secret == *secret,
    {
        SigningKey { secret: *secret }
    }
}

/// Unicode `White_Space` characters, which `str::trim` removes.
pub open spec fn unicode_white_space(c: char) -> bool {
    let u = c as u32;
    (0x09 <= u <= 0x0d) || u == 0x20 || u == 0x85 || u == 0xa0 || u == 0x1680 || (0x2000 <= u
        <= 0x200a) || u == 0x2028 || u == 0x2029 || u == 0x202f || u == 0x205f || u == 0x3000
}

pub open spec fn trim_front(s: Seq<char>) -> Seq<char>
    decreases s.len(),
{
    if s.len() > 0 && unicode_white_space(s[0]) {
        trim_front(s.drop_first())
    } else {
        s
    }
}

pub open spec fn trim_back(s: Seq<char>) -> Seq<char>
    decreases s.len(),
{
    if s.len() > 0 && unicode_white_space(s.last()) {
        trim_back(s.drop_last())
    } else {
        s
    }
}

/// `s` without leading and trailing white space.
pub open spec fn trimmed(s: Seq<char>) -> Seq<char> {
    trim_back(trim_front(s))
}

/// `str::trim`: the contract claims what its documentation states, that
/// leading and trailing Unicode `White_Space` characters are removed.
#[verifier::external_body]
fn trim(s: &str) -> (r: &str)
    ensures
        r@ == trimmed(s@),
{
    s.trim()
}

/// Refuses a private key file whose permission bits grant anything to the
/// group or to others.
pub fn check_private_key_mode(mode: u32) -> (r: Result<(), ProducerError>)
    ensures
        match r {
            Ok(_) => mode & 0o077 == 0,
            Err(e) => mode & 0o077 != 0 && e is InsecurePrivateKeyPermissions,
        },
{
    if mode & 0o077 != 0 {
        Err(ProducerError::InsecurePrivateKeyPermissions)
    } else {
        Ok(())
    }
}

/// Reads a signing key from the contents of a private key file: the
/// base64url (unpadded) text of the 32-byte secret, with surrounding white
/// space ignored.
pub fn parse_private_key(contents: &str) -> (r: Result<SigningKey, ProducerError>)
    ensures
        match base64url_decode(encode_utf8(trimmed(contents@))) {
            None => r matches Err(e) && e is InvalidPrivateKeyEncoding,
            Some(bytes) => if bytes.len() == 32 {
                r matches Ok(key) && key.secret@ == bytes
            } else {
                r matches Err(e) && e is InvalidPrivateKeyLength
            },
        },
{
    let bytes = match decode_base64url(trim(contents)) {
        Some(bytes) => bytes,
        None => return Err(ProducerError::InvalidPrivateKeyEncoding),
    };
    if bytes.len() != 32 {
        return Err(ProducerError::InvalidPrivateKeyLength);
    }
    let mut secret = [0u8; 32];
    for i in 0..32
        invariant
            bytes@.len() == 32,
            forall|k: int| 0 <= k < i ==> secret@[k] == bytes@[k],
    {
        secret[i] = bytes[i];
    }
    assert(secret@ =~= bytes@);
    Ok(SigningKey { secret })
}

/// The contents of a private key file for `key`: the base64url (unpadded)
/// text of its secret and a newline.
pub fn private_key_text(key: &SigningKey) -> (r: String)
    ensures
        r@ == base64url_encode(key.secret@) + seq!['\n'],
        r@.len() == 44,
        forall|i: int| 0 <= i < r@.len() - 1 ==> is_base64url_char(#[trigger] r@[i]),
        base64url_decode(encode_utf8(r@.drop_last())) == Some(key.secret@),
{
    let mut text = encode_base64url(key.secret.as_slice());
    proof {
        reveal_strlit("\n");
    }
    let ghost encoded = text@;
    text.append("\n");
    assert(text@.drop_last() =~= encoded);
    text
}

/// The public key of `signing_key`, in base64url without padding: the text
/// that a producer registry lists under a key id.
pub fn public_key(signing_key: &SigningKey) -> (r: String)
    ensures
        r@ == base64url_encode(ed25519_public_key(signing_key.secret@)),
        r@.len() == 43,
        base64url_decode(encode_utf8(r@)) == Some(ed25519_public_key(signing_key.secret@)),
        ed25519_public_key(signing_key.secret@).len() == 32,
        ed25519_point_decodes(ed25519_public_key(signing_key.secret@)),
        public_key_bytes(r@) == Some(ed25519_public_key(signing_key.secret@)),
{
    let public = ed25519_public_key_of(&signing_key.secret);
    encode_base64url(public.as_slice())
}

/// `signed` is `envelope` signed with `key`: the same members, and as
/// signature the base64url text of the Ed25519 signature of the canonical
/// unsigned bytes of `envelope`.
pub open spec fn is_signed_form(envelope: Envelope, key: SigningKey, signed: Envelope) -> bool {
    &&& same_but_signature(envelope, signed)
    &&& signed.signature@ == base64url_encode(
        ed25519_signature(key.secret@, encode_utf8(unsigned_text(envelope))),
    )
}

/// Signs an envelope that has no signature yet.
pub fn sign_envelope(envelope: Envelope, signing_key: &SigningKey) -> (r: Result<
    Envelope,
    ProducerError,
>)
    ensures
        envelope.signature@.len() != 0 ==> (r matches Err(e) && e is SignatureAlreadyPresent),
        envelope.signature@.len() == 0 ==> (r matches Ok(signed) && is_signed_form(
            envelope,
            *signing_key,
            signed,
        ) && signed.signature@.len() == 86 && signature_bytes(signed.signature@) == Some(
            ed25519_signature(signing_key.secret@, encode_utf8(unsigned_text(envelope))),
        )),
{
    let mut envelope = envelope;
    if envelope.signature.as_str().as_bytes().len() != 0 {
        return Err(ProducerError::SignatureAlreadyPresent);
    }
    let bytes = match unsigned_bytes(&envelope) {
        Ok(bytes) => bytes,
        Err(_) => return Err(ProducerError::Canonicalization),
    };
    let signature = ed25519_sign(&signing_key.secret, bytes.as_slice());
    envelope.signature = encode_base64url(signature.as_slice());
    Ok(envelope)
}


/// Key files reload: the text `private_key_text` writes for a key, once white
/// space is trimmed, decodes to the key's secret, so `parse_private_key`
/// gives the key back.
pub proof fn lemma_private_key_text_reloads(key: SigningKey, text: Seq<char>)
    requires
        text.len() > 0,
        text.last() == '\n',
        forall|i: int| 0 <= i < text.len() - 1 ==> is_base64url_char(#[trigger] text[i]),
        base64url_decode(encode_utf8(text.drop_last())) == Some(key.secret@),
    ensures
        base64url_decode(encode_utf8(trimmed(text))) == Some(key.secret@),
{
    let encoded = text.drop_last();
    if encoded.len() == 0 {
        assert(trim_front(text.drop_first()) =~= text.drop_first());
        assert(trimmed(text) =~= encoded);
    } else {
        assert(!unicode_white_space(text[0]));
        assert(trim_front(text) == text);
        assert(!unicode_white_space(encoded.last()));
        assert(trim_back(encoded) == encoded);
        assert(trimmed(text) == encoded);
    }
}

/// What the producer signs is what admission checks: for an envelope that
/// validation accepts, signed with `key` by `sign_envelope`, under a registry
/// entry of its issuer that grants its kind and target and lists
/// `public_key(key)` under its key id, admission succeeds exactly when
/// Ed25519 strict verification accepts the producer's own signature of the
/// canonical unsigned bytes and the admission time can be written; otherwise
/// it is refused for the signature.
pub proof fn lemma_signed_envelope_admission(
    envelope: Envelope,
    key: SigningKey,
    signed: Envelope,
    key_text: Seq<char>,
    registry: ProducerRegistry,
    now: Timestamp,
    metadata: AdmissionMetadata,
)
    requires
        is_signed_form(envelope, key, signed),
        signature_bytes(signed.signature@) == Some(
            ed25519_signature(key.secret@, encode_utf8(unsigned_text(envelope))),
        ),
        public_key_bytes(key_text) == Some(ed25519_public_key(key.secret@)),
        envelope_rejection(envelope, now) is None,
        registry.issuer@ == envelope.issuer@,
        is_authorized(registry, envelope),
        registered_key(registry.keys@, envelope.key_id@) == Some(key_text),
    ensures
        ({
            let public = ed25519_public_key(key.secret@);
            let message = encode_utf8(unsigned_text(envelope));
            let verified = ed25519_verify_strict(
                public,
                message,
                ed25519_signature(key.secret@, message),
            );
            let verdict = admission_rejection(signed, Ok(registry), now, metadata);
            &&& !verified ==> verdict == Some(Rejection::InvalidSignature)
            &&& verdict is None <==> verified && admission_time_text(metadata.admitted_at) is Some
        }),
{
    lemma_unsigned_text_ignores_signature(envelope, signed);
    lemma_validation_ignores_signature(envelope, signed, now);
    assert(is_authorized(registry, signed));
    assert(registered_key(registry.keys@, signed.key_id@) == Some(key_text));
}

} // verus!
