//! Canonical JSON text: object keys in sorted order, no whitespace, arrays in
//! their original order. Two settings files whose JSON content is the same,
//! however they are formatted or whose keys come in whatever order, have the
//! same canonical text; that is how the active profile is recognised.

use vstd::prelude::*;
use vstd::relations::{sorted_by, total_ordering};
use crate::text::{lex_le, lex_order, str_lex_le, lemma_lex_total_ordering,
    lemma_lex_reflexive, lemma_lex_antisymmetric, lemma_lex_transitive, lemma_lex_connected};

verus! {

#[verifier::external_type_specification]
#[verifier::external_body]
pub struct ExSerdeJsonError(serde_json::Error);

#[verifier::external_type_specification]
#[verifier::external_body]
pub struct ExSerdeJsonValue(serde_json::Value);

/// A parsed JSON document, as the library reads it.
///
/// Numbers are held as the text that `serde_json` writes for them, so the
/// library never handles floating point.
#[derive(Debug)]
pub enum JsonValue {
    Null,
    Bool(bool),
    Number(String),
    Str(String),
    Array(Vec<JsonValue>),
    Object(Vec<JsonMember>),
}

/// One `key: value` entry of a JSON object.
#[derive(Debug)]
pub struct JsonMember {
    pub key: String,
    pub value: JsonValue,
}

/// Why a JSON value could not be rendered.
#[derive(Debug)]
pub enum JsonError {
    Serialize(serde_json::Error),
}

/// Lower-case hexadecimal digit for `n < 16`.
pub open spec fn hex_digit(n: int) -> char {
    seq!['0', '1', '2', '3', '4', '5', '6', '7', '8', '9', 'a', 'b', 'c', 'd', 'e', 'f'][n]
}

/// How serde_json writes one character inside a JSON string literal.
pub open spec fn escape_char(c: char) -> Seq<char> {
    if c == '"' {
        seq!['\\', '"']
    } else if c == '\\' {
        seq!['\\', '\\']
    } else if c == '\u{8}' {
        seq!['\\', 'b']
    } else if c == '\u{c}' {
        seq!['\\', 'f']
    } else if c == '\n' {
        seq!['\\', 'n']
    } else if c == '\r' {
        seq!['\\', 'r']
    } else if c == '\t' {
        seq!['\\', 't']
    } else if (c as u32) < 0x20 {
        seq!['\\', 'u', '0', '0', hex_digit((c as int) / 16), hex_digit((c as int) % 16)]
    } else {
        seq![c]
    }
}

/// The escaped contents of a JSON string literal.
pub open spec fn escaped_contents(s: Seq<char>) -> Seq<char>
    decreases s.len(),
{
    if s.len() == 0 {
        Seq::empty()
    } else {
        escaped_contents(s.drop_last()) + escape_char(s.last())
    }
}

/// The JSON string literal that serde_json writes for `s`.
pub open spec fn json_string_literal(s: Seq<char>) -> Seq<char> {
    seq!['"'] + escaped_contents(s) + seq!['"']
}

/// Parts joined with `,` between neighbours.
pub open spec fn join_with_commas(parts: Seq<Seq<char>>) -> Seq<char>
    decreases parts.len(),
{
    if parts.len() == 0 {
        Seq::empty()
    } else if parts.len() == 1 {
        parts[0]
    } else {
        join_with_commas(parts.drop_last()) + seq![','] + parts.last()
    }
}

/// Order on `(key, rendered value)` pairs: by key, then by rendered value.
pub open spec fn pair_order() -> spec_fn((Seq<char>, Seq<char>), (Seq<char>, Seq<char>)) -> bool {
    |p: (Seq<char>, Seq<char>), q: (Seq<char>, Seq<char>)|
        if p.0 == q.0 {
            lex_le(p.1, q.1)
        } else {
            lex_le(p.0, q.0)
        }
}

/// `"key":value` for one rendered member.
pub open spec fn render_pair(p: (Seq<char>, Seq<char>)) -> Seq<char> {
    json_string_literal(p.0) + seq![':'] + p.1
}

/// Canonical texts of the elements of an array, in order.
pub open spec fn canonical_items(items: Seq<JsonValue>) -> Seq<Seq<char>>
    decreases items,
{
    if items.len() == 0 {
        Seq::empty()
    } else {
        canonical_items(items.drop_last()).push(canonical_text(items.last()))
    }
}

/// `(key, canonical text of the value)` for each member of an object, in order.
pub open spec fn member_pairs(members: Seq<JsonMember>) -> Seq<(Seq<char>, Seq<char>)>
    decreases members,
{
    if members.len() == 0 {
        Seq::empty()
    } else {
        member_pairs(members.drop_last()).push(
            (members.last().key@, canonical_text(members.last().value)),
        )
    }
}

/// The canonical JSON text of a value: scalars as serde_json writes them,
/// arrays in order, object members sorted by key, no whitespace anywhere.
pub open spec fn canonical_text(v: JsonValue) -> Seq<char>
    decreases v,
{
    match v {
        JsonValue::Null => seq!['n', 'u', 'l', 'l'],
        JsonValue::Bool(b) => if b {
            seq!['t', 'r', 'u', 'e']
        } else {
            seq!['f', 'a', 'l', 's', 'e']
        },
        JsonValue::Number(n) => n@,
        JsonValue::Str(s) => json_string_literal(s@),
        JsonValue::Array(items) => seq!['['] + join_with_commas(canonical_items(items@)) + seq![
            ']',
        ],
        JsonValue::Object(members) => seq!['{'] + join_with_commas(
            member_pairs(members@).sort_by(pair_order()).map_values(|p| render_pair(p)),
        ) + seq!['}'],
    }
}


/// Calls `serde_json::to_string` on a string slice. serde_json writes a `"`,
/// then each character of the slice, escaping `"` and `\` with a backslash,
/// writing backspace, form feed, line feed, carriage return and tab as `\b`,
/// `\f`, `\n`, `\r`, `\t`, the other characters below U+0020 as `\u00` and two
/// lower-case hex digits, and every other character as itself; then a closing
/// `"`. Serialising a string slice never fails.
#[verifier::external_body]
fn json_quote(s: &str) -> (res: Result<String, serde_json::Error>)
    ensures
        res is Ok,
        res->Ok_0@ == json_string_literal(s@),
{
    serde_json::to_string(s)
}

/// The character sequences held by a sequence of string pairs.
pub open spec fn pair_views(s: Seq<(String, String)>) -> Seq<(Seq<char>, Seq<char>)> {
    s.map_values(|p: (String, String)| (p.0@, p.1@))
}

/// The pair order is a total order.
pub proof fn lemma_pair_total_ordering()
    ensures
        total_ordering(pair_order()),
{
    let r = pair_order();
    assert forall|p: (Seq<char>, Seq<char>)| #[trigger] r(p, p) by {
        lemma_lex_reflexive(p.1);
    }
    assert forall|p: (Seq<char>, Seq<char>), q: (Seq<char>, Seq<char>)|
        #[trigger] r(p, q) && #[trigger] r(q, p) implies p == q by {
        if p.0 == q.0 {
            lemma_lex_antisymmetric(p.1, q.1);
        } else {
            lemma_lex_antisymmetric(p.0, q.0);
        }
    }
    assert forall|p: (Seq<char>, Seq<char>), q: (Seq<char>, Seq<char>), t: (Seq<char>, Seq<char>)|
        #[trigger] r(p, q) && #[trigger] r(q, t) implies r(p, t) by {
        if p.0 == q.0 && q.0 == t.0 {
            lemma_lex_transitive(p.1, q.1, t.1);
        } else if p.0 == q.0 {
        } else if q.0 == t.0 {
        } else {
            lemma_lex_transitive(p.0, q.0, t.0);
            if p.0 == t.0 {
                lemma_lex_antisymmetric(p.0, q.0);
            }
        }
    }
    assert forall|p: (Seq<char>, Seq<char>), q: (Seq<char>, Seq<char>)|
        #[trigger] r(p, q) || #[trigger] r(q, p) by {
        lemma_lex_connected(p.0, q.0);
        lemma_lex_connected(p.1, q.1);
    }
}

fn pair_le(a: &(String, String), b: &(String, String)) -> (res: bool)
    ensures
        res == pair_order()((a.0@, a.1@), (b.0@, b.1@)),
{
    let k1 = str_lex_le(a.0.as_str(), b.0.as_str());
    let k2 = str_lex_le(b.0.as_str(), a.0.as_str());
    if k1 && k2 {
        proof {
            lemma_lex_antisymmetric(a.0@, b.0@);
        }
        str_lex_le(a.1.as_str(), b.1.as_str())
    } else {
        proof {
            if a.0@ == b.0@ {
                lemma_lex_reflexive(a.0@);
            }
        }
        k1
    }
}

fn sort_pairs(items: Vec<(String, String)>) -> (res: Vec<(String, String)>)
    ensures
        sorted_by(pair_views(res@), pair_order()),
        pair_views(res@).to_multiset() == pair_views(items@).to_multiset(),
{
    let mut res: Vec<(String, String)> = Vec::new();
    let mut k: usize = 0;
    let n = items.len();
    proof {
        lemma_pair_total_ordering();
        assert(pair_views(res@) =~= pair_views(items@.take(0)));
    }
    while k < n
        invariant
            n == items.len(),
            k <= n,
            total_ordering(pair_order()),
            sorted_by(pair_views(res@), pair_order()),
            pair_views(res@).to_multiset() == pair_views(items@.take(k as int)).to_multiset(),
        decreases n - k,
    {
        let item = (items[k].0.clone(), items[k].1.clone());
        let mut pos: usize = 0;
        while pos < res.len() && pair_le(&res[pos], &item)
            invariant
                pos <= res.len(),
                forall|j: int|
                    0 <= j < pos ==> pair_order()(
                        (#[trigger] res@[j].0@, res@[j].1@),
                        (item.0@, item.1@),
                    ),
            decreases res.len() - pos,
        {
            pos = pos + 1;
        }
        let ghost old_views = pair_views(res@);
        let ghost iv = (item.0@, item.1@);
        assert(iv == (items@[k as int].0@, items@[k as int].1@));
        res.insert(pos, item);
        proof {
            assert(pair_views(res@) =~= old_views.insert(pos as int, iv));
            assert(items@.take(k + 1) =~= items@.take(k as int).push(items@[k as int]));
            assert(pair_views(items@.take(k + 1)) =~= pair_views(items@.take(k as int)).push(iv));
            vstd::seq_lib::to_multiset_insert(old_views, pos as int, iv);
            vstd::seq_lib::to_multiset_build(pair_views(items@.take(k as int)), iv);
            let nv = pair_views(res@);
            let r = pair_order();
            if pos < old_views.len() {
                assert(!r(old_views[pos as int], iv));
                assert(r(old_views[pos as int], iv) || r(iv, old_views[pos as int]));
            }
            assert forall|i: int, j: int| 0 <= i < j < nv.len() implies #[trigger] r(
                nv[i],
                nv[j],
            ) by {
                if i < pos && j == pos {
                    assert(r(old_views[i], iv));
                } else if i < pos && j > pos {
                    assert(r(old_views[i], old_views[j - 1]));
                } else if i == pos && j > pos {
                    assert(r(old_views[pos as int], old_views[j - 1]));
                    assert(r(iv, old_views[pos as int]));
                } else if i > pos {
                    assert(r(old_views[i - 1], old_views[j - 1]));
                } else {
                    assert(r(old_views[i], old_views[j]));
                }
            }
        }
        k = k + 1;
    }
    assert(items@.take(n as int) =~= items@);
    res
}


proof fn lemma_join_push(parts: Seq<Seq<char>>, x: Seq<char>)
    ensures
        join_with_commas(parts.push(x)) == if parts.len() == 0 {
            x
        } else {
            join_with_commas(parts) + seq![','] + x
        },
{
    assert(parts.push(x).drop_last() =~= parts);
    if parts.len() == 0 {
        assert(parts.push(x)[0] == x);
    }
}

/// Renders a JSON value as canonical JSON text: object keys sorted, no
/// whitespace, arrays in their original order. Two values with the same
/// content give the same text, so the texts can be compared with `==`.
pub fn canonical_json_value(value: &JsonValue) -> (res: Result<String, JsonError>)
    ensures
        res is Ok,
        res->Ok_0@ == canonical_text(*value),
    decreases value,
{
    match value {
        JsonValue::Null => {
            let mut out = String::new();
            out.append("null");
            proof {
                reveal_strlit("null");
            }
            assert(out@ =~= canonical_text(*value));
            Ok(out)
        },
        JsonValue::Bool(b) => {
            let mut out = String::new();
            if *b {
                out.append("true");
                proof {
                    reveal_strlit("true");
                }
            } else {
                out.append("false");
                proof {
                    reveal_strlit("false");
                }
            }
            assert(out@ =~= canonical_text(*value));
            Ok(out)
        },
        JsonValue::Number(n) => {
            let mut out = String::new();
            out.append(n.as_str());
            assert(out@ =~= canonical_text(*value));
            Ok(out)
        },
        JsonValue::Str(text) => match json_quote(text.as_str()) {
            Ok(quoted) => Ok(quoted),
            Err(e) => Err(JsonError::Serialize(e)),
        },
        JsonValue::Array(items) => {
            let mut out = String::new();
            out.append("[");
            proof {
                reveal_strlit("[");
                reveal_strlit(",");
                reveal_strlit("]");
                assert(items@.take(0) =~= Seq::<JsonValue>::empty());
                assert(canonical_items(items@.take(0)) =~= Seq::<Seq<char>>::empty());
            }
            let mut i: usize = 0;
            while i < items.len()
                invariant
                    i <= items@.len(),
                    *value == JsonValue::Array(*items),
                    out@ == seq!['['] + join_with_commas(canonical_items(items@.take(i as int))),
                decreases items@.len() - i,
            {
                proof {
                    reveal_strlit(",");
                    assert(decreases_to!(*value => (*value)->Array_0));
                    assert(decreases_to!(*items => items@));
                    assert(decreases_to!(items@ => items@[i as int]));
                    assert(decreases_to!(*value => items@[i as int]));
                }
                let part = match canonical_json_value(&items[i]) {
                    Ok(t) => t,
                    Err(e) => {
                        return Err(e);
                    },
                };
                proof {
                    let pre = items@.take(i as int);
                    assert(items@.take(i + 1).drop_last() =~= pre);
                    assert(items@.take(i + 1).last() == items@[i as int]);
                    assert(canonical_items(items@.take(i + 1)) == canonical_items(pre).push(
                        canonical_text(items@[i as int]),
                    ));
                    lemma_join_push(canonical_items(pre), part@);
                    assert(canonical_items(pre).len() == i) by {
                        lemma_canonical_items_len(pre);
                    }
                }
                if i > 0 {
                    out.append(",");
                }
                out.append(part.as_str());
                i = i + 1;
            }
            out.append("]");
            assert(items@.take(items@.len() as int) =~= items@);
            assert(out@ =~= canonical_text(*value));
            Ok(out)
        },
        JsonValue::Object(members) => {
            let mut pairs: Vec<(String, String)> = Vec::new();
            let mut i: usize = 0;
            proof {
                assert(members@.take(0) =~= Seq::<JsonMember>::empty());
                assert(pair_views(pairs@) =~= member_pairs(members@.take(0)));
            }
            while i < members.len()
                invariant
                    i <= members@.len(),
                    *value == JsonValue::Object(*members),
                    pair_views(pairs@) == member_pairs(members@.take(i as int)),
                decreases members@.len() - i,
            {
                proof {
                    assert(decreases_to!(*value => (*value)->Object_0));
                    assert(decreases_to!(*members => members@));
                    assert(decreases_to!(members@ => members@[i as int]));
                    assert(decreases_to!(members@[i as int] => members@[i as int].value));
                    assert(decreases_to!(*value => members@[i as int].value));
                }
                let rendered = match canonical_json_value(&members[i].value) {
                    Ok(t) => t,
                    Err(e) => {
                        return Err(e);
                    },
                };
                let key = members[i].key.clone();
                let ghost before = pairs@;
                pairs.push((key, rendered));
                proof {
                    let pre = members@.take(i as int);
                    assert(members@.take(i + 1).drop_last() =~= pre);
                    assert(members@.take(i + 1).last() == members@[i as int]);
                    assert(pair_views(pairs@) =~= pair_views(before).push(
                        (members@[i as int].key@, canonical_text(members@[i as int].value)),
                    ));
                }
                i = i + 1;
            }
            assert(members@.take(members@.len() as int) =~= members@);
            let sorted = sort_pairs(pairs);
            proof {
                lemma_pair_total_ordering();
            }
            let ghost expected = member_pairs(members@).sort_by(pair_order());
            proof {
                member_pairs(members@).lemma_sort_by_ensures(pair_order());
                vstd::seq_lib::lemma_sorted_unique(pair_views(sorted@), expected, pair_order());
            }
            let mut out = String::new();
            out.append("{");
            proof {
                reveal_strlit("{");
                reveal_strlit(",");
                reveal_strlit(":");
                reveal_strlit("}");
                assert(expected.take(0).map_values(|p| render_pair(p)) =~= Seq::<
                    Seq<char>,
                >::empty());
            }
            let mut j: usize = 0;
            while j < sorted.len()
                invariant
                    j <= sorted@.len(),
                    pair_views(sorted@) == expected,
                    *value == JsonValue::Object(*members),
                    out@ == seq!['{'] + join_with_commas(
                        expected.take(j as int).map_values(|p| render_pair(p)),
                    ),
                decreases sorted@.len() - j,
            {
                proof {
                    reveal_strlit(",");
                    reveal_strlit(":");
                }
                let quoted = match json_quote(sorted[j].0.as_str()) {
                    Ok(t) => t,
                    Err(e) => {
                        return Err(JsonError::Serialize(e));
                    },
                };
                proof {
                    let pre = expected.take(j as int).map_values(|p| render_pair(p));
                    assert(expected[j as int] == (sorted@[j as int].0@, sorted@[j as int].1@));
                    assert(expected.take(j + 1).map_values(|p| render_pair(p)) =~= pre.push(
                        render_pair(expected[j as int]),
                    ));
                    lemma_join_push(pre, render_pair(expected[j as int]));
                }
                if j > 0 {
                    out.append(",");
                }
                out.append(quoted.as_str());
                out.append(":");
                out.append(sorted[j].1.as_str());
                j = j + 1;
            }
            out.append("}");
            assert(expected.take(sorted@.len() as int) =~= expected);
            assert(out@ =~= canonical_text(*value));
            Ok(out)
        },
    }
}

/// The document that `serde_json::from_slice::<serde_json::Value>` reads
/// from `bytes`, as a [`JsonValue`] (numbers as the text serde_json writes
/// for them); `None` when the bytes are not one JSON document.
pub uninterp spec fn json_document(bytes: Seq<u8>) -> Option<JsonValue>;

/// Turns a parsed `serde_json::Value` into the library's [`JsonValue`],
/// variant for variant; a number becomes the text serde_json writes for it.
#[verifier::external_body]
fn json_from_value(value: &serde_json::Value) -> JsonValue {
    match value {
        serde_json::Value::Null => JsonValue::Null,
        serde_json::Value::Bool(b) => JsonValue::Bool(*b),
        serde_json::Value::Number(n) => JsonValue::Number(n.to_string()),
        serde_json::Value::String(s) => JsonValue::Str(s.clone()),
        serde_json::Value::Array(items) => JsonValue::Array(items.iter().map(json_from_value).collect()),
        serde_json::Value::Object(map) => JsonValue::Object(
            map.iter().map(|(k, v)| JsonMember { key: k.clone(), value: json_from_value(v) }).collect(),
        ),
    }
}

/// Calls `serde_json::from_slice::<serde_json::Value>` on `bytes`: the
/// document when the bytes hold one JSON document (surrounding white space
/// allowed), `None` otherwise. A `serde_json::Map` holds each key once, so
/// every object of the document has distinct keys. A number is written by
/// `itoa` (an optional `-` and digits) or, for a float, by `zmij` (an
/// optional `-`, digits, `.`, digits, then possibly `e`, a sign and digits),
/// so every number text is shaped like a JSON number.
#[verifier::external_body]
fn parse_json_document(bytes: &[u8]) -> (res: Option<JsonValue>)
    ensures
        res == json_document(bytes@),
        res is Some <==> crate::codex::parses_as_json(bytes@),
        res is Some ==> json_well_formed(res->0),
        res is Some ==> crate::json_unique::numbers_shaped(res->0),
{
    match serde_json::from_slice::<serde_json::Value>(bytes) {
        Ok(value) => Some(json_from_value(&value)),
        Err(_) => None,
    }
}

/// The canonical JSON text of a document held in `content`; `None` when
/// `content` is not one JSON document. The document read has distinct keys
/// in every object and JSON-shaped numbers, so two documents give the same
/// text exactly when they have the same content (see
/// [`crate::json_unique::lemma_documents_compare_by_content`]).
pub fn canonical_json_from_slice(content: &[u8]) -> (res: Option<String>)
    ensures
        res is Some <==> json_document(content@) is Some,
        res is Some ==> res->0@ == canonical_text(json_document(content@)->0),
        res is Some ==> json_well_formed(json_document(content@)->0),
        res is Some ==> crate::json_unique::numbers_shaped(json_document(content@)->0),
{
    match parse_json_document(content) {
        None => None,
        Some(value) => match canonical_json_value(&value) {
            Ok(text) => Some(text),
            Err(_) => None,
        },
    }
}

proof fn lemma_canonical_items_len(items: Seq<JsonValue>)
    ensures
        canonical_items(items).len() == items.len(),
    decreases items.len(),
{
    if items.len() > 0 {
        lemma_canonical_items_len(items.drop_last());
    }
}


/// Every object, at every depth, holds each key at most once (as a parsed
/// JSON object map does).
pub open spec fn json_well_formed(v: JsonValue) -> bool
    decreases v,
{
    match v {
        JsonValue::Array(xs) => forall|i: int|
            0 <= i < xs@.len() ==> json_well_formed(#[trigger] xs@[i]),
        JsonValue::Object(ms) => (forall|i: int, j: int|
            0 <= i < j < ms@.len() ==> #[trigger] ms@[i].key@ != #[trigger] ms@[j].key@) && (
        forall|i: int| 0 <= i < ms@.len() ==> json_well_formed(#[trigger] ms@[i].value)),
        _ => true,
    }
}

/// Two JSON values have the same content: equal scalars, arrays with
/// equivalent elements in the same order, objects with the same keys whose
/// values are equivalent, whatever order the members come in.
pub open spec fn json_equivalent(a: JsonValue, b: JsonValue) -> bool
    decreases a,
{
    match a {
        JsonValue::Null => b is Null,
        JsonValue::Bool(x) => b matches JsonValue::Bool(y) && x == y,
        JsonValue::Number(x) => b matches JsonValue::Number(y) && x@ == y@,
        JsonValue::Str(x) => b matches JsonValue::Str(y) && x@ == y@,
        JsonValue::Array(xs) => b matches JsonValue::Array(ys) && xs@.len() == ys@.len() && (
        forall|i: int| 0 <= i < xs@.len() ==> json_equivalent(#[trigger] xs@[i], ys@[i])),
        JsonValue::Object(ms) => b matches JsonValue::Object(ns) && (forall|i: int|
            0 <= i < ms@.len() ==> exists|j: int|
                0 <= j < ns@.len() && #[trigger] ms@[i].key@ == #[trigger] ns@[j].key@
                    && json_equivalent(ms@[i].value, ns@[j].value)) && (forall|j: int|
            0 <= j < ns@.len() ==> exists|i: int|
                0 <= i < ms@.len() && #[trigger] ms@[i].key@ == #[trigger] ns@[j].key@
                    && json_equivalent(ms@[i].value, ns@[j].value)),
    }
}

pub(crate) proof fn lemma_member_pairs_index(ms: Seq<JsonMember>)
    ensures
        member_pairs(ms).len() == ms.len(),
        forall|i: int|
            0 <= i < ms.len() ==> #[trigger] member_pairs(ms)[i] == (
                ms[i].key@,
                canonical_text(ms[i].value),
            ),
    decreases ms.len(),
{
    if ms.len() > 0 {
        lemma_member_pairs_index(ms.drop_last());
        assert forall|i: int| 0 <= i < ms.len() implies #[trigger] member_pairs(ms)[i] == (
            ms[i].key@,
            canonical_text(ms[i].value),
        ) by {
            if i < ms.len() - 1 {
                assert(ms.drop_last()[i] == ms[i]);
            }
        }
    }
}

pub(crate) proof fn lemma_canonical_items_index(xs: Seq<JsonValue>)
    ensures
        canonical_items(xs).len() == xs.len(),
        forall|i: int|
            0 <= i < xs.len() ==> #[trigger] canonical_items(xs)[i] == canonical_text(xs[i]),
    decreases xs.len(),
{
    if xs.len() > 0 {
        lemma_canonical_items_index(xs.drop_last());
        assert forall|i: int| 0 <= i < xs.len() implies #[trigger] canonical_items(xs)[i]
            == canonical_text(xs[i]) by {
            if i < xs.len() - 1 {
                assert(xs.drop_last()[i] == xs[i]);
            }
        }
    }
}

/// Two duplicate-free sequences with the same elements have the same multiset.
proof fn lemma_same_elements_same_multiset<A>(x: Seq<A>, y: Seq<A>)
    requires
        x.no_duplicates(),
        y.no_duplicates(),
        forall|a: A| x.contains(a) <==> y.contains(a),
    ensures
        x.to_multiset() == y.to_multiset(),
{
    x.lemma_multiset_has_no_duplicates();
    y.lemma_multiset_has_no_duplicates();
    assert forall|a: A| x.to_multiset().count(a) == y.to_multiset().count(a) by {
        vstd::seq_lib::to_multiset_contains(x, a);
        vstd::seq_lib::to_multiset_contains(y, a);
        if x.contains(a) {
            assert(x.to_multiset().contains(a));
            assert(y.to_multiset().contains(a));
        }
    }
    assert(x.to_multiset() =~= y.to_multiset());
}

/// Formatting and member order do not matter: two well-formed JSON values
/// with the same content have the same canonical text. This is what lets a
/// settings file be matched to the profile it was copied from by comparing
/// canonical texts with `==`.
#[verifier::spinoff_prover]
#[verifier::rlimit(40)]
pub proof fn lemma_equivalent_values_have_equal_canonical_text(a: JsonValue, b: JsonValue)
    requires
        json_well_formed(a),
        json_well_formed(b),
        json_equivalent(a, b),
    ensures
        canonical_text(a) == canonical_text(b),
    decreases a,
{
    match a {
        JsonValue::Array(xs) => {
            let ys = b->Array_0;
            assert forall|i: int| 0 <= i < xs@.len() implies canonical_text(xs@[i])
                == canonical_text(ys@[i]) by {
                assert(decreases_to!(a => a->Array_0));
                assert(decreases_to!(a->Array_0 => xs@));
                assert(decreases_to!(xs@ => xs@[i]));
                assert(json_well_formed(xs@[i]));
                assert(json_well_formed(ys@[i]));
                lemma_equivalent_values_have_equal_canonical_text(xs@[i], ys@[i]);
            }
            lemma_canonical_items_index(xs@);
            lemma_canonical_items_index(ys@);
            assert(canonical_items(xs@) =~= canonical_items(ys@));
        },
        JsonValue::Object(ms) => {
            let ns = b->Object_0;
            let pa = member_pairs(ms@);
            let pb = member_pairs(ns@);
            lemma_member_pairs_index(ms@);
            lemma_member_pairs_index(ns@);
            assert forall|i: int, j: int|
                0 <= i < ms@.len() && 0 <= j < ns@.len() && ms@[i].key@ == ns@[j].key@
                    && json_equivalent(ms@[i].value, ns@[j].value) implies #[trigger] pa[i]
                == #[trigger] pb[j] by {
                assert(decreases_to!(a => a->Object_0));
                assert(decreases_to!(a->Object_0 => ms@));
                assert(decreases_to!(ms@ => ms@[i]));
                assert(decreases_to!(ms@[i] => ms@[i].value));
                assert(json_well_formed(ms@[i].value));
                assert(json_well_formed(ns@[j].value));
                lemma_equivalent_values_have_equal_canonical_text(ms@[i].value, ns@[j].value);
            }
            assert forall|p: (Seq<char>, Seq<char>)| pa.contains(p) <==> pb.contains(p) by {
                if pa.contains(p) {
                    let i = choose|i: int| 0 <= i < pa.len() && pa[i] == p;
                    assert(ms@[i].key@ == ms@[i].key@);
                    let j = choose|j: int|
                        0 <= j < ns@.len() && #[trigger] ms@[i].key@ == #[trigger] ns@[j].key@
                            && json_equivalent(ms@[i].value, ns@[j].value);
                    assert(pa[i] == pb[j]);
                }
                if pb.contains(p) {
                    let j = choose|j: int| 0 <= j < pb.len() && pb[j] == p;
                    assert(ns@[j].key@ == ns@[j].key@);
                    let i = choose|i: int|
                        0 <= i < ms@.len() && #[trigger] ms@[i].key@ == #[trigger] ns@[j].key@
                            && json_equivalent(ms@[i].value, ns@[j].value);
                    assert(pa[i] == pb[j]);
                }
            }
            assert(pa.no_duplicates()) by {
                assert forall|i: int, j: int| 0 <= i < pa.len() && 0 <= j < pa.len() && i != j
                    implies pa[i] != pa[j] by {
                    if i < j {
                        assert(ms@[i].key@ != ms@[j].key@);
                    } else {
                        assert(ms@[j].key@ != ms@[i].key@);
                    }
                }
            }
            assert(pb.no_duplicates()) by {
                assert forall|i: int, j: int| 0 <= i < pb.len() && 0 <= j < pb.len() && i != j
                    implies pb[i] != pb[j] by {
                    if i < j {
                        assert(ns@[i].key@ != ns@[j].key@);
                    } else {
                        assert(ns@[j].key@ != ns@[i].key@);
                    }
                }
            }
            lemma_same_elements_same_multiset(pa, pb);
            lemma_pair_total_ordering();
            pa.lemma_sort_by_ensures(pair_order());
            pb.lemma_sort_by_ensures(pair_order());
            vstd::seq_lib::lemma_sorted_unique(
                pa.sort_by(pair_order()),
                pb.sort_by(pair_order()),
                pair_order(),
            );
        },
        _ => {},
    }
}

} // verus!
