//! The canonical bytes of an envelope: compact JSON with object member names
//! in ascending byte order at every nesting level. The signature covers the
//! canonical bytes of the envelope without its `signature` member.

use vstd::prelude::*;
use vstd::string::*;
use vstd::utf8::encode_utf8;

use crate::envelope::{same_but_signature, Envelope};
use crate::json::{
    canonical_text, json_string, json_string_literal, key_order, lemma_bytes_lt_at,
    lemma_key_order_of_ascending, member_text, members_text, object_text, separator,
    text_pair_keys, write_canonical, write_object,
};

verus! {

/// `serde_json::Error`, carried by the `Result` of the canonical encoders.
#[verifier::external_type_specification]
#[verifier::external_body]
pub struct ExJsonError(serde_json::Error);

/// The JSON text of an optional string: a string literal, or `null`.
pub open spec fn optional_text(value: Option<String>) -> Seq<char> {
    match value {
        Some(s) => json_string_literal(s@),
        None => seq!['n', 'u', 'l', 'l'],
    }
}

/// The members of an envelope as `(name, value text)` pairs; the
/// `signature` member only when `with_signature` holds.
pub open spec fn envelope_pairs(e: Envelope, with_signature: bool) -> Seq<(Seq<char>, Seq<char>)> {
    seq![
        ("spec"@, json_string_literal(e.spec@)),
        ("id"@, json_string_literal(e.id@)),
        ("issuer"@, json_string_literal(e.issuer@)),
        ("key_id"@, json_string_literal(e.key_id@)),
        ("kind"@, json_string_literal(e.kind@)),
        ("target"@, json_string_literal(e.target@)),
        ("issued_at"@, json_string_literal(e.issued_at@)),
        ("expires_at"@, json_string_literal(e.expires_at@)),
        ("correlation_id"@, json_string_literal(e.correlation_id@)),
        ("causation_id"@, optional_text(e.causation_id)),
        ("payload"@, canonical_text(e.payload)),
    ] + if with_signature {
        seq![("signature"@, json_string_literal(e.signature@))]
    } else {
        Seq::empty()
    }
}

/// The canonical text of the envelope without its signature.
pub open spec fn unsigned_text(e: Envelope) -> Seq<char> {
    object_text(envelope_pairs(e, false))
}

/// The canonical text of the whole envelope.
pub open spec fn event_text(e: Envelope) -> Seq<char> {
    object_text(envelope_pairs(e, true))
}

fn string_member(name: &str, value: &String) -> (r: (String, String))
    ensures
        r.0@ == name@,
        r.1@ == json_string_literal(value@),
{
    (String::from_str(name), json_string(value.as_str()))
}

/// The canonical text of an envelope, with or without its signature.
fn envelope_text(envelope: &Envelope, with_signature: bool) -> (r: String)
    ensures
        r@ == object_text(envelope_pairs(*envelope, with_signature)),
{
    let mut pairs: Vec<(String, String)> = Vec::new();
    pairs.push(string_member("spec", &envelope.spec));
    pairs.push(string_member("id", &envelope.id));
    pairs.push(string_member("issuer", &envelope.issuer));
    pairs.push(string_member("key_id", &envelope.key_id));
    pairs.push(string_member("kind", &envelope.kind));
    pairs.push(string_member("target", &envelope.target));
    pairs.push(string_member("issued_at", &envelope.issued_at));
    pairs.push(string_member("expires_at", &envelope.expires_at));
    pairs.push(string_member("correlation_id", &envelope.correlation_id));
    let causation = match &envelope.causation_id {
        Some(id) => json_string(id.as_str()),
        None => {
            proof {
                reveal_strlit("null");
            }
            String::from_str("null")
        },
    };
    pairs.push((String::from_str("causation_id"), causation));
    let mut payload = String::new();
    write_canonical(&envelope.payload, &mut payload);
    pairs.push((String::from_str("payload"), payload));
    if with_signature {
        pairs.push(string_member("signature", &envelope.signature));
    }
    let mut out = String::new();
    write_object(&pairs, &mut out);
    proof {
        let tp = pairs@.map_values(|p: (String, String)| (p.0@, p.1@));
        let expected = envelope_pairs(*envelope, with_signature);
        assert(tp.len() == expected.len());
        assert(tp[9] == expected[9]);
        assert(tp =~= expected);
    }
    out
}

/// The canonical bytes of the envelope without its `signature` member: the
/// bytes that an envelope's signature covers. Never fails.
pub fn unsigned_bytes(envelope: &Envelope) -> (r: Result<Vec<u8>, serde_json::Error>)
    ensures
        r matches Ok(bytes) && bytes@ == encode_utf8(unsigned_text(*envelope)),
{
    let text = envelope_text(envelope, false);
    Ok(text.as_str().as_bytes_vec())
}

/// The canonical bytes of the whole envelope, signature included. Never
/// fails.
pub fn full_event_bytes(envelope: &Envelope) -> (r: Result<Vec<u8>, serde_json::Error>)
    ensures
        r matches Ok(bytes) && bytes@ == encode_utf8(event_text(*envelope)),
{
    let text = envelope_text(envelope, true);
    Ok(text.as_str().as_bytes_vec())
}


/// The signature covers everything but itself: envelopes that differ only
/// in their signature have the same canonical unsigned text.
pub proof fn lemma_unsigned_text_ignores_signature(a: Envelope, b: Envelope)
    requires
        same_but_signature(a, b),
    ensures
        unsigned_text(a) == unsigned_text(b),
{
    assert(envelope_pairs(a, false) =~= envelope_pairs(b, false));
}


/// Texts joined with commas, from the `k`-th on.
pub open spec fn comma_joined(texts: Seq<Seq<char>>, k: int) -> Seq<char>
    decreases texts.len() - k,
{
    if 0 <= k < texts.len() {
        separator(k) + texts[k] + comma_joined(texts, k + 1)
    } else {
        Seq::empty()
    }
}

/// The member texts of an envelope in canonical order: `causation_id`,
/// `correlation_id`, `expires_at`, `id`, `issued_at`, `issuer`, `key_id`,
/// `kind`, `payload`, then `signature` when `with_signature` holds, then
/// `spec` and `target`.
pub open spec fn canonical_members(e: Envelope, with_signature: bool) -> Seq<Seq<char>> {
    seq![
        member_text("causation_id"@, optional_text(e.causation_id)),
        member_text("correlation_id"@, json_string_literal(e.correlation_id@)),
        member_text("expires_at"@, json_string_literal(e.expires_at@)),
        member_text("id"@, json_string_literal(e.id@)),
        member_text("issued_at"@, json_string_literal(e.issued_at@)),
        member_text("issuer"@, json_string_literal(e.issuer@)),
        member_text("key_id"@, json_string_literal(e.key_id@)),
        member_text("kind"@, json_string_literal(e.kind@)),
        member_text("payload"@, canonical_text(e.payload)),
    ] + if with_signature {
        seq![member_text("signature"@, json_string_literal(e.signature@))]
    } else {
        Seq::empty()
    } + seq![
        member_text("spec"@, json_string_literal(e.spec@)),
        member_text("target"@, json_string_literal(e.target@)),
    ]
}

proof fn lemma_members_text_joined(
    pairs: Seq<(Seq<char>, Seq<char>)>,
    order: Seq<usize>,
    texts: Seq<Seq<char>>,
    k: int,
)
    requires
        texts.len() == order.len(),
        forall|i: int|
            0 <= i < order.len() ==> #[trigger] order[i] < pairs.len() && texts[i] == member_text(
                pairs[order[i] as int].0,
                pairs[order[i] as int].1,
            ),
    ensures
        members_text(pairs, order, k) == comma_joined(texts, k),
    decreases order.len() - k,
{
    if 0 <= k < order.len() {
        lemma_members_text_joined(pairs, order, texts, k + 1);
        assert(order[k] < pairs.len());
    }
}

proof fn lemma_name_lt(a: Seq<char>, b: Seq<char>, i: int)
    requires
        vstd::utf8::is_ascii_chars(a),
        vstd::utf8::is_ascii_chars(b),
        0 <= i < a.len(),
        i < b.len(),
        forall|j: int| 0 <= j < i ==> a[j] == b[j],
        (a[i] as u32) < (b[i] as u32),
    ensures
        crate::json::bytes_lt(encode_utf8(a), encode_utf8(b)),
{
    vstd::utf8::is_ascii_chars_encode_utf8(a);
    vstd::utf8::is_ascii_chars_encode_utf8(b);
    let ea = encode_utf8(a);
    let eb = encode_utf8(b);
    assert forall|j: int| 0 <= j < i implies ea[j] == eb[j] by {
        assert(ea[j] == a[j] as u8);
        assert(eb[j] == b[j] as u8);
    }
    assert(ea[i] == a[i] as u8 && eb[i] == b[i] as u8);
    lemma_bytes_lt_at(ea, eb, i);
}


/// The order in which the canonical text emits the members of an envelope,
/// with and without the signature, as positions in `envelope_pairs`.
proof fn lemma_envelope_member_order(e: Envelope)
    ensures
        key_order(text_pair_keys(envelope_pairs(e, true))) == seq![
            9usize,
            8,
            7,
            1,
            6,
            2,
            3,
            4,
            10,
            11,
            0,
            5,
        ],
        key_order(text_pair_keys(envelope_pairs(e, false))) == seq![
            9usize,
            8,
            7,
            1,
            6,
            2,
            3,
            4,
            10,
            0,
            5,
        ],
{
    reveal_strlit("spec");
    reveal_strlit("id");
    reveal_strlit("issuer");
    reveal_strlit("key_id");
    reveal_strlit("kind");
    reveal_strlit("target");
    reveal_strlit("issued_at");
    reveal_strlit("expires_at");
    reveal_strlit("correlation_id");
    reveal_strlit("causation_id");
    reveal_strlit("payload");
    reveal_strlit("signature");
    let names = seq![
        "spec"@,
        "id"@,
        "issuer"@,
        "key_id"@,
        "kind"@,
        "target"@,
        "issued_at"@,
        "expires_at"@,
        "correlation_id"@,
        "causation_id"@,
        "payload"@,
        "signature"@,
    ];
    assert forall|i: int| 0 <= i < 12 implies vstd::utf8::is_ascii_chars(#[trigger] names[i]) by {}
    lemma_name_lt(names[9], names[8], 1);
    lemma_name_lt(names[8], names[7], 0);
    lemma_name_lt(names[7], names[1], 0);
    lemma_name_lt(names[1], names[6], 1);
    lemma_name_lt(names[6], names[2], 5);
    lemma_name_lt(names[2], names[3], 0);
    lemma_name_lt(names[3], names[4], 1);
    lemma_name_lt(names[4], names[10], 0);
    lemma_name_lt(names[10], names[11], 0);
    lemma_name_lt(names[11], names[0], 1);
    lemma_name_lt(names[0], names[5], 0);
    lemma_name_lt(names[10], names[0], 0);
    let full = text_pair_keys(envelope_pairs(e, true));
    let bare = text_pair_keys(envelope_pairs(e, false));
    assert forall|i: int| 0 <= i < 12 implies #[trigger] full[i] == encode_utf8(names[i]) by {}
    assert forall|i: int| 0 <= i < 11 implies #[trigger] bare[i] == encode_utf8(names[i]) by {}
    let o_full = seq![9usize, 8, 7, 1, 6, 2, 3, 4, 10, 11, 0, 5];
    let o_bare = seq![9usize, 8, 7, 1, 6, 2, 3, 4, 10, 0, 5];
    assert(o_full.no_duplicates());
    assert(o_bare.no_duplicates());
    lemma_key_order_of_ascending(full, o_full);
    lemma_key_order_of_ascending(bare, o_bare);
}


/// The canonical layout of an envelope: its members in ascending name
/// order, comma separated in braces; the full text is the unsigned text with
/// the `signature` member inserted between the `payload` member and the
/// `spec` member.
pub proof fn lemma_canonical_envelope_layout(e: Envelope)
    ensures
        unsigned_text(e) == seq!['{'] + comma_joined(canonical_members(e, false), 0) + seq!['}'],
        event_text(e) == seq!['{'] + comma_joined(canonical_members(e, true), 0) + seq!['}'],
{
    lemma_envelope_member_order(e);
    let full = envelope_pairs(e, true);
    let bare = envelope_pairs(e, false);
    let o_full = key_order(text_pair_keys(full));
    let o_bare = key_order(text_pair_keys(bare));
    let m_full = canonical_members(e, true);
    let m_bare = canonical_members(e, false);
    assert(m_full.len() == 12 && m_bare.len() == 11);
    assert forall|i: int| 0 <= i < o_full.len() implies #[trigger] o_full[i] < full.len()
        && m_full[i] == member_text(full[o_full[i] as int].0, full[o_full[i] as int].1) by {}
    assert forall|i: int| 0 <= i < o_bare.len() implies #[trigger] o_bare[i] < bare.len()
        && m_bare[i] == member_text(bare[o_bare[i] as int].0, bare[o_bare[i] as int].1) by {}
    lemma_members_text_joined(full, o_full, m_full, 0);
    lemma_members_text_joined(bare, o_bare, m_bare, 0);
}

} // verus!
