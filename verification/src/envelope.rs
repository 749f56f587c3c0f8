//! The event envelope (v1) and the payload schemas of the two v0 event kinds.

use vstd::prelude::*;

use crate::json::JsonValue;
use crate::text::str_equal;

verus! {

pub const EVENT_SPEC_V1: &'static str = "grey-signal/event/v1";

pub const PROBE_REQUESTED_V1: &'static str = "probe.requested.v1";

pub const PROBE_COMPLETED_V1: &'static str = "probe.completed.v1";

/// An event envelope. Every field is required; `causation_id` may be null.
#[derive(Debug, Clone, PartialEq)]
pub struct Envelope {
    pub spec: String,
    pub id: String,
    pub issuer: String,
    pub key_id: String,
    pub kind: String,
    pub target: String,
    pub issued_at: String,
    pub expires_at: String,
    pub correlation_id: String,
    pub causation_id: Option<String>,
    pub payload: JsonValue,
    pub signature: String,
}

/// Payload of `probe.requested.v1`.
#[derive(Debug)]
pub struct ProbeRequestedPayload {
    pub nonce: String,
}

/// Payload of `probe.completed.v1`.
#[derive(Debug)]
pub struct ProbeCompletedPayload {
    pub request_id: String,
    pub nonce_digest: String,
    pub consumer_version: String,
    pub observed_at: String,
}

/// The two envelopes agree on every member but the signature.
pub open spec fn same_but_signature(a: Envelope, b: Envelope) -> bool {
    &&& a.spec == b.spec
    &&& a.id == b.id
    &&& a.issuer == b.issuer
    &&& a.key_id == b.key_id
    &&& a.kind == b.kind
    &&& a.target == b.target
    &&& a.issued_at == b.issued_at
    &&& a.expires_at == b.expires_at
    &&& a.correlation_id == b.correlation_id
    &&& a.causation_id == b.causation_id
    &&& a.payload == b.payload
}

/// The characters of a JSON string value.
pub open spec fn text_of(v: JsonValue) -> Option<Seq<char>> {
    match v {
        JsonValue::Text(s) => Some(s@),
        _ => None,
    }
}

/// Object members hold a record of string fields named `fields`, whose
/// values in field order are `values`: the member names are distinct and
/// are exactly the fields, each with a string value.
pub open spec fn members_hold_string_fields(
    entries: Seq<(String, JsonValue)>,
    fields: Seq<Seq<char>>,
    values: Seq<Seq<char>>,
) -> bool {
    &&& values.len() == fields.len()
    &&& forall|i: int, k: int|
        0 <= i < k < entries.len() ==> (#[trigger] entries[i]).0@ != (#[trigger] entries[k]).0@
    &&& forall|i: int| 0 <= i < entries.len() ==> #[trigger] member_is_field(entries, fields, values, i)
    &&& forall|j: int| 0 <= j < fields.len() ==> #[trigger] field_is_member(entries, fields, j)
}

/// Member `i` is one of the fields, with a string value: the field's value.
pub open spec fn member_is_field(
    entries: Seq<(String, JsonValue)>,
    fields: Seq<Seq<char>>,
    values: Seq<Seq<char>>,
    i: int,
) -> bool {
    exists|j: int|
        0 <= j < fields.len() && entries[i].0@ == #[trigger] fields[j] && text_of(entries[i].1)
            == Some(values[j])
}

/// Field `j` is the name of a member.
pub open spec fn field_is_member(entries: Seq<(String, JsonValue)>, fields: Seq<Seq<char>>, j: int) -> bool {
    exists|i: int| 0 <= i < entries.len() && (#[trigger] entries[i]).0@ == fields[j]
}

/// A JSON value holds a record of string fields named `fields`, whose values
/// in field order are `values`: either an object whose members hold them, or
/// an array of exactly as many strings, in field order.
pub open spec fn holds_string_fields(
    v: JsonValue,
    fields: Seq<Seq<char>>,
    values: Seq<Seq<char>>,
) -> bool {
    match v {
        JsonValue::Object(entries) => members_hold_string_fields(entries@, fields, values),
        JsonValue::Array(items) => {
            &&& values.len() == fields.len()
            &&& items@.len() == fields.len()
            &&& forall|i: int| 0 <= i < items@.len() ==> text_of(#[trigger] items@[i]) == Some(values[i])
        },
        _ => false,
    }
}

pub open spec fn requested_fields() -> Seq<Seq<char>> {
    seq!["nonce"@]
}

pub open spec fn completed_fields() -> Seq<Seq<char>> {
    seq!["request_id"@, "nonce_digest"@, "consumer_version"@, "observed_at"@]
}


pub open spec fn field_names(fields: Seq<&str>) -> Seq<Seq<char>> {
    fields.map_values(|f: &str| f@)
}

pub open spec fn string_views(values: Seq<String>) -> Seq<Seq<char>> {
    values.map_values(|s: String| s@)
}

/// Finds the field named `name`.
fn field_index(fields: &Vec<&str>, name: &str) -> (r: Option<usize>)
    ensures
        match r {
            Some(j) => j < fields@.len() && fields@[j as int]@ == name@,
            None => forall|j: int| 0 <= j < fields@.len() ==> fields@[j]@ != name@,
        },
{
    let mut j: usize = 0;
    while j < fields.len()
        invariant
            j <= fields@.len(),
            forall|k: int| 0 <= k < j ==> fields@[k]@ != name@,
        decreases fields@.len() - j,
    {
        if str_equal(fields[j], name) {
            return Some(j);
        }
        j = j + 1;
    }
    None
}

proof fn lemma_unknown_member(
    entries: Seq<(String, JsonValue)>,
    fields: Seq<Seq<char>>,
    i: int,
)
    requires
        0 <= i < entries.len(),
        forall|j: int| 0 <= j < fields.len() ==> fields[j] != entries[i].0@,
    ensures
        forall|values: Seq<Seq<char>>| !members_hold_string_fields(entries, fields, values),
{
    assert forall|values: Seq<Seq<char>>| !members_hold_string_fields(entries, fields, values) by {
        if members_hold_string_fields(entries, fields, values) {
            assert(member_is_field(entries, fields, values, i));
        }
    }
}

proof fn lemma_member_not_text(
    entries: Seq<(String, JsonValue)>,
    fields: Seq<Seq<char>>,
    i: int,
)
    requires
        0 <= i < entries.len(),
        text_of(entries[i].1) is None,
    ensures
        forall|values: Seq<Seq<char>>| !members_hold_string_fields(entries, fields, values),
{
    assert forall|values: Seq<Seq<char>>| !members_hold_string_fields(entries, fields, values) by {
        if members_hold_string_fields(entries, fields, values) {
            assert(member_is_field(entries, fields, values, i));
        }
    }
}

proof fn lemma_repeated_member(
    entries: Seq<(String, JsonValue)>,
    fields: Seq<Seq<char>>,
    a: int,
    b: int,
)
    requires
        0 <= a < b < entries.len(),
        entries[a].0@ == entries[b].0@,
    ensures
        forall|values: Seq<Seq<char>>| !members_hold_string_fields(entries, fields, values),
{
}

proof fn lemma_missing_member(entries: Seq<(String, JsonValue)>, fields: Seq<Seq<char>>, j: int)
    requires
        0 <= j < fields.len(),
        forall|k: int| 0 <= k < entries.len() ==> entries[k].0@ != fields[j],
    ensures
        forall|values: Seq<Seq<char>>| !members_hold_string_fields(entries, fields, values),
{
    assert forall|values: Seq<Seq<char>>| !members_hold_string_fields(entries, fields, values) by {
        if members_hold_string_fields(entries, fields, values) {
            assert(field_is_member(entries, fields, j));
        }
    }
}

proof fn lemma_members_hold(
    entries: Seq<(String, JsonValue)>,
    names: Seq<Seq<char>>,
    values: Seq<Seq<char>>,
    owner: Seq<int>,
    slot: Seq<int>,
)
    requires
        forall|a: int, b: int| 0 <= a < b < names.len() ==> names[a] != names[b],
        values.len() == names.len(),
        owner.len() == names.len(),
        slot.len() == entries.len(),
        forall|j: int|
            0 <= j < names.len() ==> 0 <= #[trigger] owner[j] < entries.len() && entries[owner[j]].0@
                == names[j] && text_of(entries[owner[j]].1) == Some(values[j]),
        forall|k: int|
            0 <= k < entries.len() ==> 0 <= #[trigger] slot[k] < names.len() && entries[k].0@
                == names[slot[k]] && owner[slot[k]] == k,
    ensures
        members_hold_string_fields(entries, names, values),
{
    assert forall|a: int, b: int| 0 <= a < b < entries.len() implies (#[trigger] entries[a]).0@
        != (#[trigger] entries[b]).0@ by {
        if entries[a].0@ == entries[b].0@ {
            assert(owner[slot[a]] == a);
            assert(owner[slot[b]] == b);
            assert(names[slot[a]] == names[slot[b]]);
            if slot[a] < slot[b] {
                assert(names[slot[a]] != names[slot[b]]);
            } else if slot[b] < slot[a] {
                assert(names[slot[b]] != names[slot[a]]);
            }
        }
    }
    assert forall|k: int| 0 <= k < entries.len() implies #[trigger] member_is_field(
        entries,
        names,
        values,
        k,
    ) by {
        let jj = slot[k];
        assert(owner[jj] == k);
        assert(0 <= jj < names.len() && entries[k].0@ == names[jj] && text_of(entries[k].1) == Some(
            values[jj],
        ));
    }
    assert forall|jj: int| 0 <= jj < names.len() implies #[trigger] field_is_member(
        entries,
        names,
        jj,
    ) by {
        let k = owner[jj];
        assert(0 <= k < entries.len() && entries[k].0@ == names[jj]);
    }
}

/// Reads a record of string fields out of object members.
fn read_member_fields(entries: &Vec<(String, JsonValue)>, fields: &Vec<&str>) -> (r: Option<
    Vec<String>,
>)
    requires
        forall|a: int, b: int| 0 <= a < b < fields@.len() ==> fields@[a]@ != fields@[b]@,
    ensures
        match r {
            Some(values) => members_hold_string_fields(
                entries@,
                field_names(fields@),
                string_views(values@),
            ),
            None => forall|values: Seq<Seq<char>>|
                !members_hold_string_fields(entries@, field_names(fields@), values),
        },
{
    let ghost names = field_names(fields@);
    let n = fields.len();
    let m = entries.len();
    let mut found: Vec<Option<String>> = Vec::new();
    // owner[j]: the member that filled field j; slot[k]: the field of member k
    let ghost mut owner: Seq<int> = Seq::empty();
    let ghost mut slot: Seq<int> = Seq::empty();
    for j in 0..n
        invariant
            found@.len() == j,
            owner.len() == j,
            forall|k: int| 0 <= k < j ==> #[trigger] found@[k] is None,
            forall|k: int| 0 <= k < j ==> #[trigger] owner[k] == -1,
    {
        found.push(None);
        proof {
            owner = owner.push(-1int);
        }
    }
    for i in 0..m
        invariant
            m == entries@.len(),
            n == fields@.len(),
            names == field_names(fields@),
            names.len() == n,
            forall|a: int, b: int| 0 <= a < b < n ==> names[a] != names[b],
            found@.len() == n,
            owner.len() == n,
            slot.len() == i,
            forall|j: int|
                0 <= j < n ==> if #[trigger] found@[j] is Some {
                    0 <= owner[j] < i
                } else {
                    owner[j] == -1
                },
            forall|j: int|
                0 <= j < n && #[trigger] found@[j] is Some ==> entries@[owner[j]].0@ == names[j]
                    && text_of(entries@[owner[j]].1) == Some(found@[j]->0@),
            forall|k: int|
                0 <= k < i ==> 0 <= #[trigger] slot[k] < n && entries@[k].0@ == names[slot[k]]
                    && owner[slot[k]] == k,
    {
        let j = match field_index(fields, entries[i].0.as_str()) {
            Some(j) => j,
            None => {
                proof {
                    lemma_unknown_member(entries@, names, i as int);
                }
                return None;
            },
        };
        assert(names[j as int] == entries@[i as int].0@);
        if found[j].is_some() {
            proof {
                lemma_repeated_member(entries@, names, owner[j as int], i as int);
            }
            return None;
        }
        match &entries[i].1 {
            JsonValue::Text(s) => {
                found.set(j, Some(s.clone()));
                proof {
                    owner = owner.update(j as int, i as int);
                    slot = slot.push(j as int);
                    assert forall|k: int| 0 <= k < i + 1 implies 0 <= #[trigger] slot[k] < n
                        && entries@[k].0@ == names[slot[k]] && owner[slot[k]] == k by {
                        if k < i {
                            assert(slot[k] != j);
                        }
                    }
                }
            },
            _ => {
                proof {
                    lemma_member_not_text(entries@, names, i as int);
                }
                return None;
            },
        }
    }
    let mut values: Vec<String> = Vec::new();
    for j in 0..n
        invariant
            m == entries@.len(),
            n == fields@.len(),
            names == field_names(fields@),
            names.len() == n,
            forall|a: int, b: int| 0 <= a < b < n ==> names[a] != names[b],
            found@.len() == n,
            owner.len() == n,
            slot.len() == m,
            values@.len() == j,
            forall|k: int| 0 <= k < j ==> found@[k] == Some(#[trigger] values@[k]),
            forall|jj: int|
                0 <= jj < n ==> if #[trigger] found@[jj] is Some {
                    0 <= owner[jj] < m
                } else {
                    owner[jj] == -1
                },
            forall|jj: int|
                0 <= jj < n && #[trigger] found@[jj] is Some ==> entries@[owner[jj]].0@ == names[jj]
                    && text_of(entries@[owner[jj]].1) == Some(found@[jj]->0@),
            forall|k: int|
                0 <= k < m ==> 0 <= #[trigger] slot[k] < n && entries@[k].0@ == names[slot[k]]
                    && owner[slot[k]] == k,
    {
        match &found[j] {
            Some(s) => {
                values.push(s.clone());
            },
            None => {
                proof {
                    assert forall|k: int| 0 <= k < m implies entries@[k].0@ != names[j as int] by {
                        if entries@[k].0@ == names[j as int] {
                            assert(names[slot[k]] == names[j as int]);
                            assert(slot[k] == j);
                        }
                    }
                    lemma_missing_member(entries@, names, j as int);
                }
                return None;
            },
        }
    }
    proof {
        let vs = string_views(values@);
        assert forall|jj: int| 0 <= jj < n implies 0 <= #[trigger] owner[jj] < m
            && entries@[owner[jj]].0@ == names[jj] && text_of(entries@[owner[jj]].1) == Some(
            vs[jj],
        ) by {
            assert(found@[jj] == Some(values@[jj]));
        }
        lemma_members_hold(entries@, names, vs, owner, slot);
    }
    Some(values)
}

/// Reads a record of string fields out of a JSON value, as a derived
/// deserializer that denies unknown fields does: `Some` with the field values
/// in field order exactly when the value holds such a record.
pub fn read_string_fields(v: &JsonValue, fields: &Vec<&str>) -> (r: Option<Vec<String>>)
    requires
        forall|a: int, b: int| 0 <= a < b < fields@.len() ==> fields@[a]@ != fields@[b]@,
    ensures
        match r {
            Some(values) => holds_string_fields(*v, field_names(fields@), string_views(values@)),
            None => forall|values: Seq<Seq<char>>|
                !holds_string_fields(*v, field_names(fields@), values),
        },
{
    let n = fields.len();
    match v {
        JsonValue::Array(items) => {
            if items.len() != n {
                return None;
            }
            let mut values: Vec<String> = Vec::new();
            for i in 0..n
                invariant
                    n == items@.len(),
                    n == fields@.len(),
                    *v == JsonValue::Array(*items),
                    values@.len() == i,
                    forall|k: int| 0 <= k < i ==> text_of(#[trigger] items@[k]) == Some(values@[k]@),
            {
                match &items[i] {
                    JsonValue::Text(s) => {
                        values.push(s.clone());
                    },
                    _ => {
                        assert forall|vals: Seq<Seq<char>>|
                            !holds_string_fields(*v, field_names(fields@), vals) by {
                            assert(text_of(items@[i as int]) is None);
                        }
                        return None;
                    },
                }
            }
            assert forall|k: int| 0 <= k < items@.len() implies text_of(#[trigger] items@[k]) == Some(
                string_views(values@)[k],
            ) by {}
            Some(values)
        },
        JsonValue::Object(entries) => read_member_fields(entries, fields),
        _ => None,
    }
}


/// The field values that a JSON value holds for `fields`, if it holds a
/// record of them.
pub open spec fn decoded_fields(v: JsonValue, fields: Seq<Seq<char>>) -> Option<Seq<Seq<char>>> {
    if exists|values: Seq<Seq<char>>| holds_string_fields(v, fields, values) {
        Some(choose|values: Seq<Seq<char>>| holds_string_fields(v, fields, values))
    } else {
        None
    }
}

/// A record of distinct fields has one set of values.
pub proof fn lemma_string_fields_unique(
    v: JsonValue,
    fields: Seq<Seq<char>>,
    a: Seq<Seq<char>>,
    b: Seq<Seq<char>>,
)
    requires
        forall|i: int, j: int| 0 <= i < j < fields.len() ==> fields[i] != fields[j],
        holds_string_fields(v, fields, a),
        holds_string_fields(v, fields, b),
    ensures
        a == b,
{
    match v {
        JsonValue::Object(entries) => {
            let es = entries@;
            assert forall|j: int| 0 <= j < fields.len() implies a[j] == b[j] by {
                assert(field_is_member(es, fields, j));
                let i = choose|i: int| 0 <= i < es.len() && (#[trigger] es[i]).0@ == fields[j];
                assert(member_is_field(es, fields, a, i));
                assert(member_is_field(es, fields, b, i));
                let ja = choose|ja: int|
                    0 <= ja < fields.len() && es[i].0@ == #[trigger] fields[ja] && text_of(es[i].1)
                        == Some(a[ja]);
                let jb = choose|jb: int|
                    0 <= jb < fields.len() && es[i].0@ == #[trigger] fields[jb] && text_of(es[i].1)
                        == Some(b[jb]);
                if ja != j {
                    if ja < j {
                        assert(fields[ja] != fields[j]);
                    } else {
                        assert(fields[j] != fields[ja]);
                    }
                }
                if jb != j {
                    if jb < j {
                        assert(fields[jb] != fields[j]);
                    } else {
                        assert(fields[j] != fields[jb]);
                    }
                }
            }
            assert(a =~= b);
        },
        JsonValue::Array(items) => {
            assert forall|j: int| 0 <= j < fields.len() implies a[j] == b[j] by {
                assert(text_of(items@[j]) == Some(a[j]));
            }
            assert(a =~= b);
        },
        _ => {},
    }
}

/// Reads the values of distinct string fields: those of `decoded_fields`.
pub fn decode_string_fields(v: &JsonValue, fields: &Vec<&str>) -> (r: Option<Vec<String>>)
    requires
        forall|a: int, b: int| 0 <= a < b < fields@.len() ==> fields@[a]@ != fields@[b]@,
    ensures
        match decoded_fields(*v, field_names(fields@)) {
            Some(values) => r matches Some(vs) && string_views(vs@) == values,
            None => r is None,
        },
{
    let r = read_string_fields(v, fields);
    proof {
        let names = field_names(fields@);
        assert forall|i: int, j: int| 0 <= i < j < names.len() implies names[i] != names[j] by {
            assert(names[i] == fields@[i]@ && names[j] == fields@[j]@);
        }
        if r is Some {
            let vs = r->0;
            let chosen = choose|values: Seq<Seq<char>>| holds_string_fields(*v, names, values);
            lemma_string_fields_unique(*v, names, chosen, string_views(vs@));
        }
    }
    r
}

} // verus!
