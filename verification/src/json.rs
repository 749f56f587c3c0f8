//! JSON values carried in event payloads, and their canonical text.
//!
//! The canonical text is compact JSON in which the members of every object
//! are emitted in ascending byte order of their names; array order and string
//! contents are preserved.

use vstd::prelude::*;
use vstd::string::*;
use vstd::utf8::encode_utf8;

verus! {

/// A JSON value. Object members are kept in the order they were given;
/// numbers are kept as their JSON text.
#[derive(Debug, PartialEq)]
pub enum JsonValue {
    Null,
    Bool(bool),
    Number(String),
    Text(String),
    Array(Vec<JsonValue>),
    Object(Vec<(String, JsonValue)>),
}

/// Strict lexicographic order on byte strings: the order of `str` and
/// `String` values.
pub open spec fn bytes_lt(a: Seq<u8>, b: Seq<u8>) -> bool
    decreases a.len(),
{
    if a.len() == 0 {
        b.len() > 0
    } else if b.len() == 0 {
        false
    } else if a[0] != b[0] {
        a[0] < b[0]
    } else {
        bytes_lt(a.drop_first(), b.drop_first())
    }
}

/// Position, within `rem`, of the first index whose key is smallest.
pub open spec fn min_position(keys: Seq<Seq<u8>>, rem: Seq<usize>) -> int
    decreases rem.len(),
{
    if rem.len() <= 1 {
        0
    } else {
        let p = min_position(keys, rem.drop_last());
        if bytes_lt(keys[rem.last() as int], keys[rem[p] as int]) {
            rem.len() - 1
        } else {
            p
        }
    }
}

/// The indices of `rem`, ordered by ascending key (selection order).
pub open spec fn selection_order(keys: Seq<Seq<u8>>, rem: Seq<usize>) -> Seq<usize>
    decreases rem.len(),
{
    let p = min_position(keys, rem);
    if rem.len() == 0 || p < 0 || p >= rem.len() {
        Seq::empty()
    } else {
        seq![rem[p]] + selection_order(keys, rem.remove(p))
    }
}

pub open spec fn indices(n: nat) -> Seq<usize> {
    Seq::new(n, |i: int| i as usize)
}

/// The order in which members with these names are emitted.
pub open spec fn key_order(keys: Seq<Seq<u8>>) -> Seq<usize> {
    selection_order(keys, indices(keys.len()))
}

pub proof fn lemma_min_position_in_range(keys: Seq<Seq<u8>>, rem: Seq<usize>)
    requires
        rem.len() > 0,
    ensures
        0 <= min_position(keys, rem) < rem.len(),
    decreases rem.len(),
{
    if rem.len() > 1 {
        lemma_min_position_in_range(keys, rem.drop_last());
    }
}

/// Compares two byte strings in the order of `bytes_lt`.
fn bytes_less(a: &[u8], b: &[u8]) -> (r: bool)
    ensures
        r == bytes_lt(a@, b@),
{
    let mut i: usize = 0;
    assert(a@.skip(0) =~= a@);
    assert(b@.skip(0) =~= b@);
    while i < a.len() && i < b.len()
        invariant
            i <= a@.len(),
            i <= b@.len(),
            a@.subrange(0, i as int) == b@.subrange(0, i as int),
            bytes_lt(a@, b@) == bytes_lt(a@.skip(i as int), b@.skip(i as int)),
        decreases a@.len() - i,
    {
        if a[i] != b[i] {
            return a[i] < b[i];
        }
        assert(a@.skip(i as int).drop_first() =~= a@.skip(i + 1));
        assert(b@.skip(i as int).drop_first() =~= b@.skip(i + 1));
        assert(a@.subrange(0, i + 1) =~= a@.subrange(0, i as int).push(a@[i as int]));
        assert(b@.subrange(0, i + 1) =~= b@.subrange(0, i as int).push(b@[i as int]));
        i = i + 1;
    }
    i < b.len()
}


/// The byte strings of the member names of `(name, text)` pairs.
pub open spec fn pair_keys(pairs: Seq<(String, String)>) -> Seq<Seq<u8>> {
    pairs.map_values(|p: (String, String)| encode_utf8(p.0@))
}

/// Computes the selection order of the members named in `pairs`.
fn emission_order(pairs: &Vec<(String, String)>) -> (order: Vec<usize>)
    ensures
        order@ == key_order(pair_keys(pairs@)),
{
    let ghost keys = pair_keys(pairs@);
    let n = pairs.len();
    let mut rem: Vec<usize> = Vec::new();
    for i in 0..n
        invariant
            rem@ =~= indices(i as nat),
    {
        rem.push(i);
    }
    let mut order: Vec<usize> = Vec::new();
    while rem.len() > 0
        invariant
            n == pairs@.len(),
            keys == pair_keys(pairs@),
            order@ + selection_order(keys, rem@) == key_order(keys),
            forall|k: int| 0 <= k < rem@.len() ==> rem@[k] < n,
        decreases rem@.len(),
    {
        let mut best: usize = 0;
        let mut j: usize = 1;
        assert(rem@.take(1).len() == 1);
        while j < rem.len()
            invariant
                1 <= j <= rem@.len(),
                n == pairs@.len(),
                keys == pair_keys(pairs@),
                forall|k: int| 0 <= k < rem@.len() ==> rem@[k] < n,
                best == min_position(keys, rem@.take(j as int)),
                best < j,
            decreases rem@.len() - j,
        {
            let cand = pairs[rem[j]].0.as_str().as_bytes();
            let cur = pairs[rem[best]].0.as_str().as_bytes();
            assert(rem@.take(j + 1).drop_last() =~= rem@.take(j as int));
            assert(cand@ == keys[rem@[j as int] as int]);
            assert(cur@ == keys[rem@[best as int] as int]);
            if bytes_less(cand, cur) {
                best = j;
            }
            j = j + 1;
        }
        assert(rem@.take(rem@.len() as int) =~= rem@);
        let ghost old_rem = rem@;
        let picked = rem.remove(best);
        order.push(picked);
        assert(rem@ =~= old_rem.remove(best as int));
        assert(order@ + selection_order(keys, rem@) =~= key_order(keys));
    }
    assert(order@ + selection_order(keys, rem@) =~= order@);
    order
}


/// The lowercase hexadecimal digit for `d < 16`.
pub open spec fn hex_digit(d: int) -> char {
    if d < 10 {
        (48 + d) as char
    } else {
        (87 + d) as char
    }
}

/// How the JSON writer escapes one character of a string.
pub open spec fn json_escape_char(c: char) -> Seq<char> {
    if c == '"' {
        seq!['\\', '"']
    } else if c == '\\' {
        seq!['\\', '\\']
    } else if c == '\x08' {
        seq!['\\', 'b']
    } else if c == '\t' {
        seq!['\\', 't']
    } else if c == '\n' {
        seq!['\\', 'n']
    } else if c == '\x0c' {
        seq!['\\', 'f']
    } else if c == '\r' {
        seq!['\\', 'r']
    } else if (c as int) < 0x20 {
        seq!['\\', 'u', '0', '0', hex_digit((c as int) / 16), hex_digit((c as int) % 16)]
    } else {
        seq![c]
    }
}

pub open spec fn json_escape(s: Seq<char>) -> Seq<char>
    decreases s.len(),
{
    if s.len() == 0 {
        Seq::empty()
    } else {
        json_escape_char(s[0]) + json_escape(s.drop_first())
    }
}

/// A JSON string literal: the escaped characters between double quotes.
pub open spec fn json_string_literal(s: Seq<char>) -> Seq<char> {
    seq!['"'] + json_escape(s) + seq!['"']
}

/// `serde_json`'s string writer, reached through the `Display` impl of
/// `serde_json::Value::String`: the contract claims that it writes a double
/// quote, each character escaped by `json_escape_char`, and a double quote,
/// as `format_escaped_str` and `CompactFormatter::write_char_escape` do.
#[verifier::external_body]
pub(crate) fn json_string(s: &str) -> (r: String)
    ensures
        r@ == json_string_literal(s@),
{
    serde_json::Value::String(s.to_owned()).to_string()
}

pub open spec fn separator(k: int) -> Seq<char> {
    if k > 0 {
        seq![',']
    } else {
        Seq::empty()
    }
}

/// One object member: the name as a string literal, a colon, the value text.
pub open spec fn member_text(name: Seq<char>, value: Seq<char>) -> Seq<char> {
    json_string_literal(name) + seq![':'] + value
}

/// The byte strings of the names of `(name, value text)` pairs.
pub open spec fn text_pair_keys(pairs: Seq<(Seq<char>, Seq<char>)>) -> Seq<Seq<u8>> {
    pairs.map_values(|p: (Seq<char>, Seq<char>)| encode_utf8(p.0))
}

/// Members `order[k..]`, comma separated.
pub open spec fn members_text(
    pairs: Seq<(Seq<char>, Seq<char>)>,
    order: Seq<usize>,
    k: int,
) -> Seq<char>
    decreases order.len() - k,
{
    if 0 <= k < order.len() && order[k] < pairs.len() {
        separator(k) + member_text(pairs[order[k] as int].0, pairs[order[k] as int].1)
            + members_text(pairs, order, k + 1)
    } else {
        Seq::empty()
    }
}

/// The canonical text of an object whose members have these names and these
/// value texts: members in ascending byte order of their names.
pub open spec fn object_text(pairs: Seq<(Seq<char>, Seq<char>)>) -> Seq<char> {
    seq!['{'] + members_text(pairs, key_order(text_pair_keys(pairs)), 0) + seq!['}']
}

pub open spec fn entry_keys(entries: Seq<(String, JsonValue)>) -> Seq<Seq<u8>> {
    entries.map_values(|e: (String, JsonValue)| encode_utf8(e.0@))
}

/// The canonical text of a JSON value.
pub open spec fn canonical_text(v: JsonValue) -> Seq<char>
    decreases v, 0int,
{
    match v {
        JsonValue::Null => seq!['n', 'u', 'l', 'l'],
        JsonValue::Bool(b) => if b {
            seq!['t', 'r', 'u', 'e']
        } else {
            seq!['f', 'a', 'l', 's', 'e']
        },
        JsonValue::Number(t) => t@,
        JsonValue::Text(s) => json_string_literal(s@),
        JsonValue::Array(items) => seq!['['] + items_text(items@, 0) + seq![']'],
        JsonValue::Object(entries) => seq!['{'] + entries_text(
            entries@,
            key_order(entry_keys(entries@)),
            0,
        ) + seq!['}'],
    }
}

/// Items `items[k..]`, comma separated.
pub open spec fn items_text(items: Seq<JsonValue>, k: int) -> Seq<char>
    decreases items, items.len() - k,
{
    if 0 <= k < items.len() {
        separator(k) + canonical_text(items[k]) + items_text(items, k + 1)
    } else {
        Seq::empty()
    }
}

/// Entries `order[k..]` of an object, comma separated.
pub open spec fn entries_text(entries: Seq<(String, JsonValue)>, order: Seq<usize>, k: int) -> Seq<
    char,
>
    decreases entries, order.len() - k,
{
    if 0 <= k < order.len() && order[k] < entries.len() {
        separator(k) + member_text(
            entries[order[k] as int].0@,
            canonical_text(entries[order[k] as int].1),
        ) + entries_text(entries, order, k + 1)
    } else {
        Seq::empty()
    }
}


/// `(name, value text)` pairs as character sequences.
pub open spec fn text_pairs(pairs: Seq<(String, String)>) -> Seq<(Seq<char>, Seq<char>)> {
    pairs.map_values(|p: (String, String)| (p.0@, p.1@))
}

proof fn lemma_selection_order_members(keys: Seq<Seq<u8>>, rem: Seq<usize>)
    ensures
        selection_order(keys, rem).len() == rem.len(),
        forall|i: int|
            0 <= i < selection_order(keys, rem).len() ==> rem.contains(
                #[trigger] selection_order(keys, rem)[i],
            ),
    decreases rem.len(),
{
    if rem.len() > 0 {
        lemma_min_position_in_range(keys, rem);
        let p = min_position(keys, rem);
        let rest = rem.remove(p);
        lemma_selection_order_members(keys, rest);
        let so = selection_order(keys, rem);
        assert forall|i: int| 0 <= i < so.len() implies rem.contains(#[trigger] so[i]) by {
            if i == 0 {
                assert(so[0] == rem[p]);
            } else {
                assert(so[i] == selection_order(keys, rest)[i - 1]);
                let j = choose|j: int| 0 <= j < rest.len() && rest[j] == so[i];
                if j < p {
                    assert(rem[j] == so[i]);
                } else {
                    assert(rem[j + 1] == so[i]);
                }
            }
        }
    }
}

/// The emission order is made of indices of the members.
pub proof fn lemma_key_order_in_range(keys: Seq<Seq<u8>>)
    ensures
        key_order(keys).len() == keys.len(),
        forall|i: int| 0 <= i < keys.len() ==> #[trigger] key_order(keys)[i] < keys.len(),
{
    lemma_selection_order_members(keys, indices(keys.len()));
    assert forall|i: int| 0 <= i < keys.len() implies #[trigger] key_order(keys)[i] < keys.len() by {
        let rem = indices(keys.len());
        assert(rem.contains(key_order(keys)[i]));
    }
}

/// Appends the canonical object text of `(name, value text)` pairs.
pub(crate) fn write_object(pairs: &Vec<(String, String)>, out: &mut String)
    ensures
        final(out)@ == old(out)@ + object_text(text_pairs(pairs@)),
{
    let ghost tp = text_pairs(pairs@);
    let order = emission_order(pairs);
    proof {
        assert(pair_keys(pairs@) =~= text_pair_keys(tp));
        lemma_key_order_in_range(pair_keys(pairs@));
        reveal_strlit("{");
        reveal_strlit("}");
        reveal_strlit(",");
        reveal_strlit(":");
    }
    let ghost start = out@;
    out.append("{");
    let n = order.len();
    for k in 0..n
        invariant
            n == order@.len(),
            n == pairs@.len(),
            tp == text_pairs(pairs@),
            forall|i: int| 0 <= i < n ==> #[trigger] order@[i] < n,
            out@ + members_text(tp, order@, k as int) == start + seq!['{'] + members_text(
                tp,
                order@,
                0,
            ),
    {
        let idx = order[k];
        let ghost before = out@;
        proof {
            reveal_strlit(",");
            reveal_strlit(":");
        }
        assert(order@[k as int] < n);
        assert(tp.len() == n);
        assert(members_text(tp, order@, k as int) == separator(k as int) + member_text(
            tp[idx as int].0,
            tp[idx as int].1,
        ) + members_text(tp, order@, k + 1));
        assert(tp[idx as int] == (pairs@[idx as int].0@, pairs@[idx as int].1@));
        if k > 0 {
            out.append(",");
        }
        assert(out@ =~= before + separator(k as int));
        let name = json_string(pairs[idx].0.as_str());
        out.append(name.as_str());
        out.append(":");
        out.append(pairs[idx].1.as_str());
        assert(tp[idx as int] == (pairs@[idx as int].0@, pairs@[idx as int].1@));
        assert(out@ =~= before + separator(k as int) + member_text(tp[idx as int].0, tp[idx as int].1));
        assert(out@ + members_text(tp, order@, k + 1) =~= start + seq!['{'] + members_text(
            tp,
            order@,
            0,
        ));
    }
    out.append("}");
    assert(out@ =~= start + object_text(tp));
}


proof fn lemma_entries_text(
    entries: Seq<(String, JsonValue)>,
    tp: Seq<(Seq<char>, Seq<char>)>,
    order: Seq<usize>,
    k: int,
)
    requires
        tp.len() == entries.len(),
        forall|i: int|
            0 <= i < entries.len() ==> #[trigger] tp[i] == (
                entries[i].0@,
                canonical_text(entries[i].1),
            ),
    ensures
        entries_text(entries, order, k) == members_text(tp, order, k),
    decreases order.len() - k,
{
    if 0 <= k < order.len() && order[k] < entries.len() {
        lemma_entries_text(entries, tp, order, k + 1);
        assert(tp[order[k] as int] == (
            entries[order[k] as int].0@,
            canonical_text(entries[order[k] as int].1),
        ));
    }
}

/// The canonical text of an object is the object text of its members' names
/// and canonical value texts.
pub proof fn lemma_object_canonical_text(
    entries: Seq<(String, JsonValue)>,
    tp: Seq<(Seq<char>, Seq<char>)>,
)
    requires
        tp.len() == entries.len(),
        forall|i: int|
            0 <= i < entries.len() ==> #[trigger] tp[i] == (
                entries[i].0@,
                canonical_text(entries[i].1),
            ),
    ensures
        seq!['{'] + entries_text(entries, key_order(entry_keys(entries)), 0) + seq!['}']
            == object_text(tp),
{
    assert(entry_keys(entries) =~= text_pair_keys(tp)) by {
        assert forall|i: int| 0 <= i < entries.len() implies entry_keys(entries)[i]
            == text_pair_keys(tp)[i] by {
            assert(tp[i].0 == entries[i].0@);
        }
    }
    lemma_entries_text(entries, tp, key_order(entry_keys(entries)), 0);
}

/// Appends the canonical text of `v` to `out`.
pub fn write_canonical(v: &JsonValue, out: &mut String)
    ensures
        final(out)@ == old(out)@ + canonical_text(*v),
    decreases v,
{
    proof {
        reveal_strlit("null");
        reveal_strlit("true");
        reveal_strlit("false");
        reveal_strlit("[");
        reveal_strlit("]");
    }
    match v {
        JsonValue::Null => out.append("null"),
        JsonValue::Bool(b) => {
            if *b {
                out.append("true");
            } else {
                out.append("false");
            }
        },
        JsonValue::Number(t) => out.append(t.as_str()),
        JsonValue::Text(s) => {
            let quoted = json_string(s.as_str());
            out.append(quoted.as_str());
        },
        JsonValue::Array(items) => {
            let ghost start = out@;
            out.append("[");
            let n = items.len();
            for k in 0..n
                invariant
                    n == items@.len(),
                    *v == JsonValue::Array(*items),
                    out@ + items_text(items@, k as int) == start + seq!['['] + items_text(
                        items@,
                        0,
                    ),
            {
                proof {
                    reveal_strlit(",");
                }
                let ghost before = out@;
                assert(items_text(items@, k as int) == separator(k as int) + canonical_text(
                    items@[k as int],
                ) + items_text(items@, k + 1));
                if k > 0 {
                    out.append(",");
                }
                proof {
                    vstd::std_specs::vec::axiom_vec_index_decreases(*items, k as int);
                    assert(decreases_to!(*v => (*v)->Array_0));
                }
                write_canonical(&items[k], out);
                assert(out@ =~= before + separator(k as int) + canonical_text(items@[k as int]));
                assert(out@ + items_text(items@, k + 1) =~= start + seq!['['] + items_text(
                    items@,
                    0,
                ));
            }
            out.append("]");
            assert(out@ =~= start + canonical_text(*v));
        },
        JsonValue::Object(entries) => {
            let n = entries.len();
            let mut pairs: Vec<(String, String)> = Vec::new();
            for k in 0..n
                invariant
                    n == entries@.len(),
                    *v == JsonValue::Object(*entries),
                    pairs@.len() == k,
                    forall|i: int|
                        0 <= i < k ==> (#[trigger] pairs@[i]).0@ == entries@[i].0@ && pairs@[i].1@
                            == canonical_text(entries@[i].1),
            {
                let mut text = String::new();
                proof {
                    vstd::std_specs::vec::axiom_vec_index_decreases(*entries, k as int);
                    assert(decreases_to!(*v => (*v)->Object_0));
                    assert(decreases_to!(entries[k as int] => entries[k as int].1));
                }
                write_canonical(&entries[k].1, &mut text);
                assert(text@ =~= canonical_text(entries@[k as int].1));
                pairs.push((entries[k].0.clone(), text));
            }
            let ghost start = out@;
            write_object(&pairs, out);
            proof {
                let tp = text_pairs(pairs@);
                assert forall|i: int| 0 <= i < entries@.len() implies #[trigger] tp[i] == (
                    entries@[i].0@,
                    canonical_text(entries@[i].1),
                ) by {
                    assert(pairs@[i].0@ == entries@[i].0@);
                }
                lemma_object_canonical_text(entries@, tp);
            }
        },
    }
}


/// The two values are the same JSON value, member for member and item for
/// item: the same kinds, the same texts, the same names in the same order.
pub open spec fn same_json(a: JsonValue, b: JsonValue) -> bool
    decreases a,
{
    match a {
        JsonValue::Null => b is Null,
        JsonValue::Bool(x) => b matches JsonValue::Bool(y) && x == y,
        JsonValue::Number(x) => b matches JsonValue::Number(y) && x@ == y@,
        JsonValue::Text(x) => b matches JsonValue::Text(y) && x@ == y@,
        JsonValue::Array(xs) => b matches JsonValue::Array(ys) && xs@.len() == ys@.len() && forall|
            i: int,
        |
            0 <= i < xs@.len() ==> same_json(#[trigger] xs@[i], ys@[i]),
        JsonValue::Object(xs) => b matches JsonValue::Object(ys) && xs@.len() == ys@.len()
            && forall|i: int|
            0 <= i < xs@.len() ==> (#[trigger] xs@[i]).0@ == ys@[i].0@ && same_json(
                xs@[i].1,
                ys@[i].1,
            ),
    }
}

proof fn lemma_items_text_same(a: Seq<JsonValue>, b: Seq<JsonValue>, k: int)
    requires
        a.len() == b.len(),
        forall|i: int| 0 <= i < a.len() ==> canonical_text(#[trigger] a[i]) == canonical_text(b[i]),
    ensures
        items_text(a, k) == items_text(b, k),
    decreases a.len() - k,
{
    if 0 <= k < a.len() {
        lemma_items_text_same(a, b, k + 1);
        assert(canonical_text(a[k]) == canonical_text(b[k]));
    }
}

proof fn lemma_entries_text_same(
    a: Seq<(String, JsonValue)>,
    b: Seq<(String, JsonValue)>,
    order: Seq<usize>,
    k: int,
)
    requires
        a.len() == b.len(),
        forall|i: int|
            0 <= i < a.len() ==> (#[trigger] a[i]).0@ == b[i].0@ && canonical_text(a[i].1)
                == canonical_text(b[i].1),
    ensures
        entries_text(a, order, k) == entries_text(b, order, k),
    decreases order.len() - k,
{
    if 0 <= k < order.len() && order[k] < a.len() {
        lemma_entries_text_same(a, b, order, k + 1);
        assert(a[order[k] as int].0@ == b[order[k] as int].0@);
    }
}

/// A copy of a JSON value: the same value, member for member and item for
/// item, so the same canonical text.
pub fn clone_json(v: &JsonValue) -> (r: JsonValue)
    ensures
        same_json(*v, r),
        canonical_text(r) == canonical_text(*v),
    decreases v,
{
    match v {
        JsonValue::Null => JsonValue::Null,
        JsonValue::Bool(b) => JsonValue::Bool(*b),
        JsonValue::Number(t) => JsonValue::Number(t.clone()),
        JsonValue::Text(s) => JsonValue::Text(s.clone()),
        JsonValue::Array(items) => {
            let mut copies: Vec<JsonValue> = Vec::new();
            let n = items.len();
            for k in 0..n
                invariant
                    n == items@.len(),
                    *v == JsonValue::Array(*items),
                    copies@.len() == k,
                    forall|i: int|
                        0 <= i < k ==> canonical_text(#[trigger] copies@[i]) == canonical_text(
                            items@[i],
                        ) && same_json(items@[i], copies@[i]),
            {
                proof {
                    vstd::std_specs::vec::axiom_vec_index_decreases(*items, k as int);
                    assert(decreases_to!(*v => (*v)->Array_0));
                }
                let copy = clone_json(&items[k]);
                copies.push(copy);
            }
            proof {
                lemma_items_text_same(copies@, items@, 0);
            }
            JsonValue::Array(copies)
        },
        JsonValue::Object(entries) => {
            let mut copies: Vec<(String, JsonValue)> = Vec::new();
            let n = entries.len();
            for k in 0..n
                invariant
                    n == entries@.len(),
                    *v == JsonValue::Object(*entries),
                    copies@.len() == k,
                    forall|i: int|
                        0 <= i < k ==> (#[trigger] copies@[i]).0@ == entries@[i].0@
                            && canonical_text(copies@[i].1) == canonical_text(entries@[i].1)
                            && same_json(entries@[i].1, copies@[i].1),
            {
                proof {
                    vstd::std_specs::vec::axiom_vec_index_decreases(*entries, k as int);
                    assert(decreases_to!(*v => (*v)->Object_0));
                    assert(decreases_to!(entries[k as int] => entries[k as int].1));
                }
                let value = clone_json(&entries[k].1);
                copies.push((entries[k].0.clone(), value));
            }
            proof {
                assert(entry_keys(copies@) =~= entry_keys(entries@));
                lemma_entries_text_same(copies@, entries@, key_order(entry_keys(entries@)), 0);
            }
            JsonValue::Object(copies)
        },
    }
}

/// Cloning copies member for member and item for item (see `clone_json`).
impl Clone for JsonValue {
    fn clone(&self) -> (r: Self)
        ensures
            same_json(*self, r),
            canonical_text(r) == canonical_text(*self),
    {
        clone_json(self)
    }
}

proof fn lemma_bytes_lt_irreflexive(a: Seq<u8>)
    ensures
        !bytes_lt(a, a),
    decreases a.len(),
{
    if a.len() > 0 {
        lemma_bytes_lt_irreflexive(a.drop_first());
    }
}

proof fn lemma_bytes_lt_transitive(a: Seq<u8>, b: Seq<u8>, c: Seq<u8>)
    requires
        bytes_lt(a, b),
        bytes_lt(b, c),
    ensures
        bytes_lt(a, c),
    decreases a.len(),
{
    if a.len() > 0 && b.len() > 0 && c.len() > 0 && a[0] == b[0] && b[0] == c[0] {
        lemma_bytes_lt_transitive(a.drop_first(), b.drop_first(), c.drop_first());
    }
}

proof fn lemma_bytes_lt_total(a: Seq<u8>, b: Seq<u8>)
    requires
        a != b,
    ensures
        bytes_lt(a, b) || bytes_lt(b, a),
    decreases a.len(),
{
    if a.len() > 0 && b.len() > 0 && a[0] == b[0] {
        if a.drop_first() == b.drop_first() {
            assert(a =~= seq![a[0]] + a.drop_first());
            assert(b =~= seq![b[0]] + b.drop_first());
        }
        lemma_bytes_lt_total(a.drop_first(), b.drop_first());
    } else if a.len() == 0 && b.len() == 0 {
        assert(a =~= b);
    }
}

proof fn lemma_bytes_lt_asymmetric(a: Seq<u8>, b: Seq<u8>)
    requires
        bytes_lt(a, b),
    ensures
        !bytes_lt(b, a),
{
    if bytes_lt(b, a) {
        lemma_bytes_lt_transitive(a, b, a);
        lemma_bytes_lt_irreflexive(a);
    }
}

/// The key at `min_position` is not above any key of `rem`.
proof fn lemma_min_position_minimal(keys: Seq<Seq<u8>>, rem: Seq<usize>)
    requires
        rem.len() > 0,
    ensures
        forall|j: int|
            0 <= j < rem.len() ==> !bytes_lt(
                #[trigger] keys[rem[j] as int],
                keys[rem[min_position(keys, rem)] as int],
            ),
    decreases rem.len(),
{
    lemma_min_position_in_range(keys, rem);
    if rem.len() > 1 {
        let prefix = rem.drop_last();
        lemma_min_position_minimal(keys, prefix);
        lemma_min_position_in_range(keys, prefix);
        let p = min_position(keys, prefix);
        let last = keys[rem.last() as int];
        let cur = keys[rem[p] as int];
        assert forall|j: int| 0 <= j < rem.len() implies !bytes_lt(
            #[trigger] keys[rem[j] as int],
            keys[rem[min_position(keys, rem)] as int],
        ) by {
            if bytes_lt(last, cur) {
                if j < rem.len() - 1 {
                    assert(prefix[j] == rem[j]);
                    if bytes_lt(keys[rem[j] as int], last) {
                        lemma_bytes_lt_transitive(keys[rem[j] as int], last, cur);
                    }
                } else {
                    lemma_bytes_lt_irreflexive(last);
                }
            } else {
                if j < rem.len() - 1 {
                    assert(prefix[j] == rem[j]);
                }
            }
        }
    } else {
        lemma_bytes_lt_irreflexive(keys[rem[0] as int]);
    }
}

/// Each index chosen by the selection order has a key not above the key of
/// any index chosen after it; no index is chosen twice when `rem` has none twice.
proof fn lemma_selection_order_sorted(keys: Seq<Seq<u8>>, rem: Seq<usize>)
    requires
        rem.no_duplicates(),
    ensures
        selection_order(keys, rem).no_duplicates(),
        forall|a: int, b: int|
            0 <= a < b < selection_order(keys, rem).len() ==> !bytes_lt(
                #[trigger] keys[selection_order(keys, rem)[b] as int],
                #[trigger] keys[selection_order(keys, rem)[a] as int],
            ),
    decreases rem.len(),
{
    if rem.len() > 0 {
        lemma_min_position_in_range(keys, rem);
        lemma_min_position_minimal(keys, rem);
        let p = min_position(keys, rem);
        let rest = rem.remove(p);
        assert(rest.no_duplicates()) by {
            assert forall|i: int, j: int| 0 <= i < j < rest.len() implies rest[i] != rest[j] by {
                let ri = if i < p { i } else { i + 1 };
                let rj = if j < p { j } else { j + 1 };
                assert(rest[i] == rem[ri]);
                assert(rest[j] == rem[rj]);
            }
        }
        lemma_selection_order_sorted(keys, rest);
        lemma_selection_order_members(keys, rest);
        let so = selection_order(keys, rem);
        let tail = selection_order(keys, rest);
        assert(so =~= seq![rem[p]] + tail);
        assert forall|b: int| 0 < b < so.len() implies so[b] != so[0] && !bytes_lt(
            keys[so[b] as int],
            keys[so[0] as int],
        ) by {
            assert(so[b] == tail[b - 1]);
            assert(rest.contains(tail[b - 1]));
            let j = choose|j: int| 0 <= j < rest.len() && rest[j] == tail[b - 1];
            let rj = if j < p { j } else { j + 1 };
            assert(rest[j] == rem[rj]);
            assert(rj != p);
        }
        assert forall|a: int, b: int| 0 <= a < b < so.len() implies !bytes_lt(
            #[trigger] keys[so[b] as int],
            #[trigger] keys[so[a] as int],
        ) by {
            if a > 0 {
                assert(so[a] == tail[a - 1]);
                assert(so[b] == tail[b - 1]);
            }
        }
        assert(so.no_duplicates()) by {
            assert forall|i: int, j: int| 0 <= i < j < so.len() implies so[i] != so[j] by {
                if i > 0 {
                    assert(so[i] == tail[i - 1]);
                    assert(so[j] == tail[j - 1]);
                }
            }
        }
    }
}

/// Canonical member order: when no two member names are the same, the
/// emission order visits every member exactly once and the names it visits
/// strictly ascend in byte order. This is the order in which `canonical_text`
/// emits the members of every object, at every nesting level.
pub proof fn lemma_key_order_sorted(keys: Seq<Seq<u8>>)
    requires
        keys.len() <= usize::MAX,
        forall|i: int, j: int| 0 <= i < j < keys.len() ==> keys[i] != keys[j],
    ensures
        key_order(keys).len() == keys.len(),
        key_order(keys).no_duplicates(),
        forall|i: int| 0 <= i < keys.len() ==> #[trigger] key_order(keys)[i] < keys.len(),
        forall|a: int, b: int|
            0 <= a < b < keys.len() ==> bytes_lt(
                #[trigger] keys[key_order(keys)[a] as int],
                #[trigger] keys[key_order(keys)[b] as int],
            ),
{
    let rem = indices(keys.len());
    assert(rem.no_duplicates()) by {
        assert forall|i: int, j: int| 0 <= i < j < rem.len() implies rem[i] != rem[j] by {
            assert(rem[i] == i && rem[j] == j);
        }
    }
    lemma_key_order_in_range(keys);
    lemma_selection_order_sorted(keys, rem);
    let ko = key_order(keys);
    assert forall|a: int, b: int| 0 <= a < b < keys.len() implies bytes_lt(
        #[trigger] keys[ko[a] as int],
        #[trigger] keys[ko[b] as int],
    ) by {
        assert(ko[a] < keys.len() && ko[b] < keys.len());
        assert(ko[a] != ko[b]);
        lemma_bytes_lt_total(keys[ko[a] as int], keys[ko[b] as int]);
    }
}


/// `place` sends `0..n` one to one into `0..n`.
pub open spec fn is_placement(place: Seq<int>, n: int) -> bool {
    &&& place.len() == n
    &&& forall|i: int| 0 <= i < n ==> 0 <= #[trigger] place[i] < n
    &&& forall|i: int, j: int| 0 <= i < j < n ==> place[i] != place[j]
}

/// No object, at any level of the value, lists a member name twice: the
/// JSON values that `serde_json` holds, whose objects are maps.
pub open spec fn names_distinct(v: JsonValue) -> bool
    decreases v,
{
    match v {
        JsonValue::Array(xs) => forall|i: int| 0 <= i < xs@.len() ==> names_distinct(#[trigger] xs@[i]),
        JsonValue::Object(xs) => (forall|i: int, j: int|
            0 <= i < j < xs@.len() ==> (#[trigger] xs@[i]).0@ != (#[trigger] xs@[j]).0@) && forall|
            i: int,
        |
            0 <= i < xs@.len() ==> names_distinct((#[trigger] xs@[i]).1),
        _ => true,
    }
}

/// The two values are the same JSON value up to the order in which objects
/// list their members, at every level: member `i` of an object of `b` is
/// member `place[i]` of the object of `a`.
pub open spec fn same_up_to_member_order(a: JsonValue, b: JsonValue) -> bool
    decreases a,
{
    match a {
        JsonValue::Null => b is Null,
        JsonValue::Bool(x) => b matches JsonValue::Bool(y) && x == y,
        JsonValue::Number(x) => b matches JsonValue::Number(y) && x@ == y@,
        JsonValue::Text(x) => b matches JsonValue::Text(y) && x@ == y@,
        JsonValue::Array(xs) => b matches JsonValue::Array(ys) && xs@.len() == ys@.len() && forall|
            i: int,
        |
            0 <= i < xs@.len() ==> same_up_to_member_order(#[trigger] xs@[i], ys@[i]),
        JsonValue::Object(xs) => b matches JsonValue::Object(ys) && xs@.len() == ys@.len()
            && exists|place: Seq<int>|
            is_placement(place, xs@.len() as int) && forall|i: int|
                0 <= i < ys@.len() ==> (#[trigger] ys@[i]).0@ == xs@[place[i]].0@
                    && same_up_to_member_order(xs@[place[i]].1, ys@[i].1),
    }
}

/// An order that lists `n` distinct indices below `n` lists every index
/// below `n`.
proof fn lemma_order_covers(o: Seq<usize>, x: usize)
    requires
        o.no_duplicates(),
        forall|i: int| 0 <= i < o.len() ==> #[trigger] o[i] < o.len(),
        x < o.len(),
    ensures
        o.contains(x),
{
    broadcast use vstd::set::group_set_axioms;

    if !o.contains(x) {
        let n = o.len() as int;
        let s = o.map_values(|u: usize| u as int);
        assert(s.no_duplicates()) by {
            assert forall|i: int, j: int| 0 <= i < s.len() && 0 <= j < s.len() && i != j implies s[i]
                != s[j] by {
                assert(o[i] != o[j]);
            }
        }
        s.unique_seq_to_set();
        let range = vstd::set_lib::set_int_range(0, n).remove(x as int);
        vstd::set_lib::lemma_int_range(0, n);
        assert(s.to_set().subset_of(range)) by {
            assert forall|v: int| s.to_set().contains(v) implies range.contains(v) by {
                let i = choose|i: int| 0 <= i < s.len() && s[i] == v;
                assert(o[i] < n);
                assert(o[i] != x);
            }
        }
        vstd::set_lib::lemma_len_subset(s.to_set(), range);
    }
}

/// Two orders of the same distinct keys that both ascend strictly agree up
/// to position `p`.
proof fn lemma_sorted_orders_agree(keys: Seq<Seq<u8>>, o1: Seq<usize>, o2: Seq<usize>, p: int)
    requires
        o1.len() == keys.len(),
        o2.len() == keys.len(),
        o1.no_duplicates(),
        o2.no_duplicates(),
        forall|i: int| 0 <= i < keys.len() ==> #[trigger] o1[i] < keys.len(),
        forall|i: int| 0 <= i < keys.len() ==> #[trigger] o2[i] < keys.len(),
        forall|a: int, b: int|
            0 <= a < b < keys.len() ==> bytes_lt(
                #[trigger] keys[o1[a] as int],
                #[trigger] keys[o1[b] as int],
            ),
        forall|a: int, b: int|
            0 <= a < b < keys.len() ==> bytes_lt(
                #[trigger] keys[o2[a] as int],
                #[trigger] keys[o2[b] as int],
            ),
        0 <= p < keys.len(),
    ensures
        forall|q: int| 0 <= q <= p ==> o1[q] == o2[q],
    decreases p,
{
    if p > 0 {
        lemma_sorted_orders_agree(keys, o1, o2, p - 1);
    }
    let x = o1[p];
    let y = o2[p];
    if x != y {
        lemma_order_covers(o2, x);
        lemma_order_covers(o1, y);
        let px = choose|i: int| 0 <= i < o2.len() && o2[i] == x;
        let py = choose|i: int| 0 <= i < o1.len() && o1[i] == y;
        if px < p {
            assert(o1[px] == o2[px]);
        }
        if py < p {
            assert(o1[py] == o2[py]);
        }
        assert(px > p && py > p);
        assert(bytes_lt(keys[o2[p] as int], keys[o2[px] as int]));
        assert(bytes_lt(keys[o1[p] as int], keys[o1[py] as int]));
        lemma_bytes_lt_asymmetric(keys[x as int], keys[y as int]);
    }
}

proof fn lemma_entries_text_reordered(
    a: Seq<(String, JsonValue)>,
    b: Seq<(String, JsonValue)>,
    oa: Seq<usize>,
    ob: Seq<usize>,
    k: int,
)
    requires
        oa.len() == ob.len(),
        forall|i: int|
            0 <= i < oa.len() ==> #[trigger] oa[i] < a.len() && ob[i] < b.len() && a[oa[i] as int].0@
                == b[ob[i] as int].0@ && canonical_text(a[oa[i] as int].1) == canonical_text(
                b[ob[i] as int].1,
            ),
    ensures
        entries_text(a, oa, k) == entries_text(b, ob, k),
    decreases oa.len() - k,
{
    if 0 <= k < oa.len() {
        lemma_entries_text_reordered(a, b, oa, ob, k + 1);
        assert(oa[k] < a.len() && a[oa[k] as int].0@ == b[ob[k] as int].0@);
    }
}

/// Members listed in another order (member `i` of `b` has the name of member
/// `place[i]` of `a` and a value of the same canonical text), no name twice,
/// are emitted as the same text.
proof fn lemma_entries_member_order(
    a: Seq<(String, JsonValue)>,
    b: Seq<(String, JsonValue)>,
    place: Seq<int>,
)
    requires
        a.len() == b.len(),
        a.len() <= usize::MAX,
        is_placement(place, a.len() as int),
        forall|i: int|
            0 <= i < b.len() ==> (#[trigger] b[i]).0@ == a[place[i]].0@ && canonical_text(b[i].1)
                == canonical_text(a[place[i]].1),
        forall|i: int, j: int| 0 <= i < j < a.len() ==> a[i].0@ != a[j].0@,
    ensures
        entries_text(a, key_order(entry_keys(a)), 0) == entries_text(
            b,
            key_order(entry_keys(b)),
            0,
        ),
{
    broadcast use vstd::utf8::encode_utf8_decode_utf8;

    let n = a.len();
    let ka = entry_keys(a);
    let kb = entry_keys(b);
    assert forall|i: int, j: int| 0 <= i < j < n implies ka[i] != ka[j] by {
        assert(vstd::utf8::decode_utf8(encode_utf8(a[i].0@)) == a[i].0@);
        assert(vstd::utf8::decode_utf8(encode_utf8(a[j].0@)) == a[j].0@);
    }
    assert forall|i: int| 0 <= i < n implies #[trigger] kb[i] == ka[place[i]] by {
        assert(b[i].0@ == a[place[i]].0@);
    }
    assert forall|i: int, j: int| 0 <= i < j < n implies kb[i] != kb[j] by {
        assert(kb[i] == ka[place[i]]);
        assert(kb[j] == ka[place[j]]);
        if place[i] < place[j] {
            assert(ka[place[i]] != ka[place[j]]);
        } else {
            assert(ka[place[j]] != ka[place[i]]);
        }
    }
    lemma_key_order_sorted(ka);
    lemma_key_order_sorted(kb);
    let oa = key_order(ka);
    let ob = key_order(kb);
    let o = Seq::new(n, |k: int| place[ob[k] as int] as usize);
    assert forall|k: int| 0 <= k < n implies #[trigger] ka[o[k] as int] == kb[ob[k] as int] by {
        assert(ob[k] < n);
        assert(kb[ob[k] as int] == ka[place[ob[k] as int]]);
    }
    assert forall|k: int| 0 <= k < n implies #[trigger] o[k] < n by {
        assert(ob[k] < n);
    }
    assert(o.no_duplicates()) by {
        assert forall|i: int, j: int| 0 <= i < o.len() && 0 <= j < o.len() && i != j implies o[i]
            != o[j] by {
            assert(ob[i] != ob[j]);
            assert(ob[i] < n && ob[j] < n);
            if ob[i] < ob[j] {
                assert(place[ob[i] as int] != place[ob[j] as int]);
            } else {
                assert(place[ob[j] as int] != place[ob[i] as int]);
            }
        }
    }
    assert forall|x: int, y: int| 0 <= x < y < n implies bytes_lt(
        #[trigger] ka[o[x] as int],
        #[trigger] ka[o[y] as int],
    ) by {
        assert(ka[o[x] as int] == kb[ob[x] as int]);
        assert(ka[o[y] as int] == kb[ob[y] as int]);
    }
    if n > 0 {
        lemma_sorted_orders_agree(ka, o, oa, n - 1);
    }
    assert forall|k: int| 0 <= k < oa.len() implies #[trigger] oa[k] < a.len() && ob[k]
        < b.len() && a[oa[k] as int].0@ == b[ob[k] as int].0@ && canonical_text(a[oa[k] as int].1)
        == canonical_text(b[ob[k] as int].1) by {
        assert(o[k] == oa[k]);
        assert(ob[k] < n);
        assert(b[ob[k] as int].0@ == a[place[ob[k] as int]].0@);
    }
    lemma_entries_text_reordered(a, b, oa, ob, 0);
}


/// Member order does not matter, at any level: two values that are the same
/// up to the order of object members, no object listing a name twice, have
/// the same canonical text.
pub proof fn lemma_canonical_text_ignores_member_order(a: JsonValue, b: JsonValue)
    requires
        names_distinct(a),
        same_up_to_member_order(a, b),
    ensures
        canonical_text(a) == canonical_text(b),
    decreases a,
{
    match a {
        JsonValue::Array(xs) => {
            let ys = b->Array_0;
            assert forall|i: int| 0 <= i < xs@.len() implies canonical_text(#[trigger] xs@[i])
                == canonical_text(ys@[i]) by {
                vstd::std_specs::vec::axiom_vec_index_decreases(xs, i);
                assert(same_up_to_member_order(xs@[i], ys@[i]));
                assert(names_distinct(xs@[i]));
                lemma_canonical_text_ignores_member_order(xs@[i], ys@[i]);
            }
            lemma_items_text_same(xs@, ys@, 0);
        },
        JsonValue::Object(xs) => {
            let ys = b->Object_0;
            let place = choose|place: Seq<int>|
                is_placement(place, xs@.len() as int) && forall|i: int|
                    0 <= i < ys@.len() ==> (#[trigger] ys@[i]).0@ == xs@[place[i]].0@
                        && same_up_to_member_order(xs@[place[i]].1, ys@[i].1);
            assert forall|i: int| 0 <= i < ys@.len() implies (#[trigger] ys@[i]).0@
                == xs@[place[i]].0@ && canonical_text(ys@[i].1) == canonical_text(
                xs@[place[i]].1,
            ) by {
                let p = place[i];
                vstd::std_specs::vec::axiom_vec_index_decreases(xs, p);
                assert(decreases_to!(xs@[p] => xs@[p].1));
                assert(names_distinct(xs@[p].1));
                lemma_canonical_text_ignores_member_order(xs@[p].1, ys@[i].1);
            }
            vstd::std_specs::vec::axiom_spec_len(&xs);
            assert(xs@.len() == xs.len());
            lemma_entries_member_order(xs@, ys@, place);
        },
        _ => {},
    }
}

/// The byte order of names: `a` is below `b` exactly when `a` is a proper
/// prefix of `b` (so the empty string is below every other), or at the first
/// position where they differ `a` has the smaller byte. This is the order of
/// `str` and `String`, and so of the names of a `BTreeMap<String, _>`.
pub proof fn lemma_bytes_lt_is_lexicographic(a: Seq<u8>, b: Seq<u8>)
    ensures
        bytes_lt(a, b) <==> ((a.len() < b.len() && a == b.subrange(0, a.len() as int)) || exists|
            i: int,
        |
            0 <= i < a.len() && i < b.len() && a.subrange(0, i) == b.subrange(0, i) && #[trigger] a[i]
                < #[trigger] b[i]),
    decreases a.len(),
{
    if a.len() == 0 {
        assert(a =~= b.subrange(0, 0));
    } else if b.len() == 0 {
    } else if a[0] != b[0] {
        if a[0] < b[0] {
            assert(a.subrange(0, 0) =~= b.subrange(0, 0));
        }
        assert forall|i: int| 0 <= i < a.len() && i < b.len() && 0 < i implies a.subrange(0, i)
            != b.subrange(0, i) by {
            assert(a.subrange(0, i)[0] == a[0]);
            assert(b.subrange(0, i)[0] == b[0]);
        }
        if a.len() < b.len() && a == b.subrange(0, a.len() as int) {
            assert(a[0] == b.subrange(0, a.len() as int)[0]);
        }
    } else {
        let a1 = a.drop_first();
        let b1 = b.drop_first();
        lemma_bytes_lt_is_lexicographic(a1, b1);
        if a1.len() < b1.len() && a1 == b1.subrange(0, a1.len() as int) {
            assert(a =~= b.subrange(0, a.len() as int)) by {
                assert forall|k: int| 0 <= k < a.len() implies a[k] == b[k] by {
                    if k > 0 {
                        assert(a[k] == a1[k - 1]);
                        assert(b[k] == b1.subrange(0, a1.len() as int)[k - 1]);
                    }
                }
            }
        }
        if a.len() < b.len() && a == b.subrange(0, a.len() as int) {
            assert(a1 =~= b1.subrange(0, a1.len() as int)) by {
                assert forall|k: int| 0 <= k < a1.len() implies a1[k] == b1[k] by {
                    assert(a[k + 1] == b.subrange(0, a.len() as int)[k + 1]);
                }
            }
        }
        if exists|i: int|
            0 <= i < a1.len() && i < b1.len() && a1.subrange(0, i) == b1.subrange(0, i)
                && #[trigger] a1[i] < #[trigger] b1[i] {
            let i = choose|i: int|
                0 <= i < a1.len() && i < b1.len() && a1.subrange(0, i) == b1.subrange(0, i)
                    && #[trigger] a1[i] < #[trigger] b1[i];
            assert(a.subrange(0, i + 1) =~= b.subrange(0, i + 1)) by {
                assert forall|k: int| 0 <= k < i + 1 implies a[k] == b[k] by {
                    if k > 0 {
                        assert(a1.subrange(0, i)[k - 1] == b1.subrange(0, i)[k - 1]);
                    }
                }
            }
            assert(a[i + 1] == a1[i] && b[i + 1] == b1[i]);
        }
        if exists|i: int|
            0 <= i < a.len() && i < b.len() && a.subrange(0, i) == b.subrange(0, i)
                && #[trigger] a[i] < #[trigger] b[i] {
            let i = choose|i: int|
                0 <= i < a.len() && i < b.len() && a.subrange(0, i) == b.subrange(0, i)
                    && #[trigger] a[i] < #[trigger] b[i];
            assert(i > 0);
            let j = i - 1;
            assert(a1.subrange(0, j) =~= b1.subrange(0, j)) by {
                assert forall|k: int| 0 <= k < j implies a1[k] == b1[k] by {
                    assert(a.subrange(0, i)[k + 1] == b.subrange(0, i)[k + 1]);
                }
            }
            assert(a1[j] == a[i] && b1[j] == b[i]);
        }
    }
}

/// A name is emitted before every longer name that it begins.
pub proof fn lemma_prefix_name_emitted_first(keys: Seq<Seq<u8>>, x: int, y: int, p: int, q: int)
    requires
        keys.len() <= usize::MAX,
        forall|i: int, j: int| 0 <= i < j < keys.len() ==> keys[i] != keys[j],
        0 <= x < keys.len(),
        0 <= y < keys.len(),
        keys[x].len() < keys[y].len(),
        keys[x] == keys[y].subrange(0, keys[x].len() as int),
        0 <= p < keys.len(),
        0 <= q < keys.len(),
        key_order(keys)[p] == x,
        key_order(keys)[q] == y,
    ensures
        p < q,
{
    lemma_key_order_sorted(keys);
    lemma_bytes_lt_is_lexicographic(keys[x], keys[y]);
    if q < p {
        lemma_bytes_lt_asymmetric(keys[y], keys[x]);
    }
    if p == q {
        assert(keys[x].len() != keys[y].len());
    }
}

/// Byte strings compare at their first difference.
pub proof fn lemma_bytes_lt_at(a: Seq<u8>, b: Seq<u8>, i: int)
    requires
        0 <= i < a.len(),
        i < b.len(),
        forall|j: int| 0 <= j < i ==> a[j] == b[j],
        a[i] < b[i],
    ensures
        bytes_lt(a, b),
    decreases i,
{
    if i > 0 {
        assert forall|j: int| 0 <= j < i - 1 implies a.drop_first()[j] == b.drop_first()[j] by {
            assert(a[j + 1] == b[j + 1]);
        }
        lemma_bytes_lt_at(a.drop_first(), b.drop_first(), i - 1);
    }
}

proof fn lemma_ascending_from_adjacent(keys: Seq<Seq<u8>>, o: Seq<usize>, a: int, b: int)
    requires
        forall|i: int| 0 <= i < o.len() ==> #[trigger] o[i] < keys.len(),
        forall|i: int|
            0 <= i < o.len() - 1 ==> bytes_lt(#[trigger] keys[o[i] as int], keys[o[i + 1] as int]),
        0 <= a < b < o.len(),
    ensures
        bytes_lt(keys[o[a] as int], keys[o[b] as int]),
    decreases b - a,
{
    if b > a + 1 {
        lemma_ascending_from_adjacent(keys, o, a + 1, b);
        lemma_bytes_lt_transitive(keys[o[a] as int], keys[o[a + 1] as int], keys[o[b] as int]);
    }
}

/// The emission order is the one order of all the members whose names
/// strictly ascend: given such an order, `key_order` is that order.
pub proof fn lemma_key_order_of_ascending(keys: Seq<Seq<u8>>, o: Seq<usize>)
    requires
        keys.len() <= usize::MAX,
        o.len() == keys.len(),
        o.no_duplicates(),
        forall|i: int| 0 <= i < o.len() ==> #[trigger] o[i] < keys.len(),
        forall|i: int|
            0 <= i < o.len() - 1 ==> bytes_lt(#[trigger] keys[o[i] as int], keys[o[i + 1] as int]),
    ensures
        key_order(keys) == o,
{
    let n = keys.len();
    assert forall|a: int, b: int| 0 <= a < b < n implies bytes_lt(
        #[trigger] keys[o[a] as int],
        #[trigger] keys[o[b] as int],
    ) by {
        lemma_ascending_from_adjacent(keys, o, a, b);
    }
    assert forall|i: int, j: int| 0 <= i < j < n implies keys[i] != keys[j] by {
        lemma_order_covers(o, i as usize);
        lemma_order_covers(o, j as usize);
        let pi = choose|p: int| 0 <= p < o.len() && o[p] == i as usize;
        let pj = choose|p: int| 0 <= p < o.len() && o[p] == j as usize;
        if pi < pj {
            assert(bytes_lt(keys[o[pi] as int], keys[o[pj] as int]));
        } else {
            assert(bytes_lt(keys[o[pj] as int], keys[o[pi] as int]));
        }
        lemma_bytes_lt_irreflexive(keys[i]);
    }
    lemma_key_order_sorted(keys);
    if n > 0 {
        lemma_sorted_orders_agree(keys, o, key_order(keys), n - 1);
    }
    assert(key_order(keys) =~= o);
}

} // verus!
