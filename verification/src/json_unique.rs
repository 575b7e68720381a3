//! Canonical texts can be read back: two values with the same canonical
//! text have the same content. Together with
//! [`crate::json::lemma_equivalent_values_have_equal_canonical_text`] this
//! makes comparing canonical texts the same as comparing JSON content.

use vstd::prelude::*;
use crate::json::{
    escape_char, escaped_contents, hex_digit, json_string_literal, join_with_commas, canonical_text,
    canonical_items, member_pairs, pair_order, render_pair, JsonValue, lemma_canonical_items_index,
    lemma_member_pairs_index, lemma_pair_total_ordering, json_equivalent,
};

verus! {

proof fn lemma_hex_digit_value(n: int)
    requires
        0 <= n < 16,
    ensures
        hex_digit(n) as int == if n < 10 {
            48 + n
        } else {
            87 + n
        },
{
    let d = seq!['0', '1', '2', '3', '4', '5', '6', '7', '8', '9', 'a', 'b', 'c', 'd', 'e', 'f'];
    assert(d[0] == '0' && d[1] == '1' && d[2] == '2' && d[3] == '3' && d[4] == '4');
    assert(d[5] == '5' && d[6] == '6' && d[7] == '7' && d[8] == '8' && d[9] == '9');
    assert(d[10] == 'a' && d[11] == 'b' && d[12] == 'c' && d[13] == 'd' && d[14] == 'e');
    assert(d[15] == 'f');
}

/// The escape of a character is never empty and never starts with `"`.
proof fn lemma_escape_char_start(c: char)
    ensures
        escape_char(c).len() >= 1,
        escape_char(c)[0] != '"',
{
}

/// Escapes can be told apart from their first characters: an escape followed
/// by anything determines the escaped character.
proof fn lemma_escape_char_prefix(c1: char, c2: char, w1: Seq<char>, w2: Seq<char>)
    requires
        escape_char(c1) + w1 == escape_char(c2) + w2,
    ensures
        c1 == c2,
{
    let e1 = escape_char(c1);
    let e2 = escape_char(c2);
    assert((e1 + w1)[0] == e1[0]);
    assert((e2 + w2)[0] == e2[0]);
    if e1.len() >= 2 && e2.len() >= 2 {
        assert((e1 + w1)[1] == e1[1]);
        assert((e2 + w2)[1] == e2[1]);
        if e1.len() == 6 && e2.len() == 6 {
            assert((e1 + w1)[4] == e1[4]);
            assert((e2 + w2)[4] == e2[4]);
            assert((e1 + w1)[5] == e1[5]);
            assert((e2 + w2)[5] == e2[5]);
            let a = c1 as int;
            let b = c2 as int;
            lemma_hex_digit_value(a / 16);
            lemma_hex_digit_value(b / 16);
            lemma_hex_digit_value(a % 16);
            lemma_hex_digit_value(b % 16);
            assert(a == b);
        }
    }
}


proof fn lemma_escaped_front(s: Seq<char>)
    requires
        s.len() > 0,
    ensures
        escaped_contents(s) == escape_char(s[0]) + escaped_contents(s.drop_first()),
    decreases s.len(),
{
    if s.len() == 1 {
        assert(s.drop_last() =~= Seq::<char>::empty());
        assert(s.drop_first() =~= Seq::<char>::empty());
        assert(escaped_contents(s.drop_first()) =~= Seq::<char>::empty());
        assert(escaped_contents(s) =~= escape_char(s[0]));
    } else {
        let init = s.drop_last();
        lemma_escaped_front(init);
        assert(init.drop_first() =~= s.drop_first().drop_last());
        assert(s.drop_first().last() == s.last());
        assert(escaped_contents(s) =~= escape_char(s[0]) + escaped_contents(s.drop_first()));
    }
}

proof fn lemma_escaped_prefix(s1: Seq<char>, s2: Seq<char>, r1: Seq<char>, r2: Seq<char>)
    requires
        escaped_contents(s1) + seq!['"'] + r1 == escaped_contents(s2) + seq!['"'] + r2,
    ensures
        s1 == s2,
        r1 == r2,
    decreases s1.len() + s2.len(),
{
    let q = seq!['"'];
    if s1.len() == 0 {
        assert(escaped_contents(s1) =~= Seq::<char>::empty());
        if s2.len() > 0 {
            lemma_escaped_front(s2);
            lemma_escape_char_start(s2[0]);
            assert((escaped_contents(s1) + q + r1)[0] == '"');
            assert((escaped_contents(s2) + q + r2)[0] == escape_char(s2[0])[0]);
        }
        assert(escaped_contents(s2) =~= Seq::<char>::empty());
        assert(r1 =~= (escaped_contents(s1) + q + r1).skip(1));
        assert(r2 =~= (escaped_contents(s2) + q + r2).skip(1));
    } else if s2.len() == 0 {
        lemma_escaped_front(s1);
        lemma_escape_char_start(s1[0]);
        assert(escaped_contents(s2) =~= Seq::<char>::empty());
        assert((escaped_contents(s2) + q + r2)[0] == '"');
        assert((escaped_contents(s1) + q + r1)[0] == escape_char(s1[0])[0]);
    } else {
        lemma_escaped_front(s1);
        lemma_escaped_front(s2);
        let e1 = escape_char(s1[0]);
        let e2 = escape_char(s2[0]);
        let w1 = escaped_contents(s1.drop_first()) + q + r1;
        let w2 = escaped_contents(s2.drop_first()) + q + r2;
        assert(escaped_contents(s1) + q + r1 =~= e1 + w1);
        assert(escaped_contents(s2) + q + r2 =~= e2 + w2);
        lemma_escape_char_prefix(s1[0], s2[0], w1, w2);
        assert(w1 =~= (e1 + w1).skip(e1.len() as int));
        assert(w2 =~= (e2 + w2).skip(e2.len() as int));
        lemma_escaped_prefix(s1.drop_first(), s2.drop_first(), r1, r2);
        assert(s1 =~= seq![s1[0]] + s1.drop_first());
        assert(s2 =~= seq![s2[0]] + s2.drop_first());
    }
}

/// A JSON string literal ends where it ends: a literal followed by anything
/// determines both the string and what follows.
pub proof fn lemma_string_literal_prefix(s1: Seq<char>, s2: Seq<char>, r1: Seq<char>, r2: Seq<char>)
    requires
        json_string_literal(s1) + r1 == json_string_literal(s2) + r2,
    ensures
        s1 == s2,
        r1 == r2,
{
    let q = seq!['"'];
    let a = json_string_literal(s1) + r1;
    let b = json_string_literal(s2) + r2;
    assert(a.skip(1) =~= escaped_contents(s1) + q + r1);
    assert(b.skip(1) =~= escaped_contents(s2) + q + r2);
    lemma_escaped_prefix(s1, s2, r1, r2);
}


/// Characters that may appear in a JSON number.
pub open spec fn is_number_char(c: char) -> bool {
    ('0' <= c && c <= '9') || c == '-' || c == '+' || c == '.' || c == 'e' || c == 'E'
}

/// The text of a JSON number as serde_json writes one: not empty, starting
/// with a digit or `-`, made only of digits, signs, `.`, `e` and `E`.
pub open spec fn number_text_shaped(t: Seq<char>) -> bool {
    &&& t.len() > 0
    &&& (t[0] == '-' || ('0' <= t[0] && t[0] <= '9'))
    &&& forall|i: int| 0 <= i < t.len() ==> is_number_char(#[trigger] t[i])
}

/// Every number in the value, at every depth, is held as the text of a JSON
/// number.
pub open spec fn numbers_shaped(v: JsonValue) -> bool
    decreases v,
{
    match v {
        JsonValue::Number(n) => number_text_shaped(n@),
        JsonValue::Array(xs) => forall|i: int|
            0 <= i < xs@.len() ==> numbers_shaped(#[trigger] xs@[i]),
        JsonValue::Object(ms) => forall|i: int|
            0 <= i < ms@.len() ==> numbers_shaped(#[trigger] ms@[i].value),
        _ => true,
    }
}

/// The first character of a value's canonical text.
pub open spec fn lead_char(v: JsonValue) -> char {
    match v {
        JsonValue::Null => 'n',
        JsonValue::Bool(b) => if b {
            't'
        } else {
            'f'
        },
        JsonValue::Number(n) => n@[0],
        JsonValue::Str(_) => '"',
        JsonValue::Array(_) => '[',
        JsonValue::Object(_) => '{',
    }
}

/// Characters that may follow a value inside canonical text.
pub open spec fn is_delimiter(c: char) -> bool {
    c == ',' || c == ']' || c == '}'
}

/// Text that is empty or starts with a delimiter.
pub open spec fn delimited(r: Seq<char>) -> bool {
    r.len() == 0 || is_delimiter(r[0])
}

proof fn lemma_first_char(v: JsonValue)
    requires
        numbers_shaped(v),
    ensures
        canonical_text(v).len() > 0,
        canonical_text(v)[0] == lead_char(v),
{
    match v {
        JsonValue::Str(s) => {
            assert(canonical_text(v) == seq!['"'] + crate::json::escaped_contents(s@) + seq!['"']);
        },
        JsonValue::Array(xs) => {
            let j = join_with_commas(canonical_items(xs@));
            assert(canonical_text(v) == seq!['['] + j + seq![']']);
        },
        JsonValue::Object(ms) => {
            let j = join_with_commas(
                member_pairs(ms@).sort_by(pair_order()).map_values(|p| render_pair(p)),
            );
            assert(canonical_text(v) == seq!['{'] + j + seq!['}']);
        },
        _ => {},
    }
}

/// What follows the first part in `join_with_commas`.
pub open spec fn join_tail(parts: Seq<Seq<char>>) -> Seq<char> {
    if parts.len() <= 1 {
        Seq::empty()
    } else {
        seq![','] + join_with_commas(parts.drop_first())
    }
}

proof fn lemma_join_front(parts: Seq<Seq<char>>)
    requires
        parts.len() > 0,
    ensures
        join_with_commas(parts) == parts[0] + join_tail(parts),
    decreases parts.len(),
{
    if parts.len() == 1 {
        assert(join_with_commas(parts) =~= parts[0] + join_tail(parts));
    } else if parts.len() == 2 {
        let init = parts.drop_last();
        let rest = parts.drop_first();
        assert(join_with_commas(init) == init[0]);
        assert(join_with_commas(rest) == rest[0]);
        assert(join_with_commas(parts) == join_with_commas(init) + seq![','] + parts.last());
        assert(join_tail(parts) == seq![','] + join_with_commas(rest));
        assert(join_with_commas(parts) =~= parts[0] + join_tail(parts));
    } else {
        let init = parts.drop_last();
        lemma_join_front(init);
        assert(init.drop_first() =~= parts.drop_first().drop_last());
        assert(parts.drop_first().last() == parts.last());
        let rest = parts.drop_first();
        assert(join_with_commas(rest) == join_with_commas(rest.drop_last()) + seq![','] + rest.last());
        assert(join_with_commas(parts) == join_with_commas(init) + seq![','] + parts.last());
        assert(join_tail(init) == seq![','] + join_with_commas(init.drop_first()));
        assert(join_with_commas(parts) =~= parts[0] + join_tail(parts));
    }
}

proof fn lemma_number_prefix(a: Seq<char>, b: Seq<char>, r1: Seq<char>, r2: Seq<char>)
    requires
        forall|i: int| 0 <= i < a.len() ==> is_number_char(#[trigger] a[i]),
        forall|i: int| 0 <= i < b.len() ==> is_number_char(#[trigger] b[i]),
        delimited(r1),
        delimited(r2),
        a + r1 == b + r2,
    ensures
        a == b,
{
    if a.len() < b.len() {
        assert((a + r1)[a.len() as int] == b[a.len() as int]);
        assert(is_number_char(b[a.len() as int]));
        assert(r1.len() > 0);
        assert((a + r1)[a.len() as int] == r1[0]);
    } else if b.len() < a.len() {
        assert((b + r2)[b.len() as int] == a[b.len() as int]);
        assert(is_number_char(a[b.len() as int]));
        assert(r2.len() > 0);
        assert((b + r2)[b.len() as int] == r2[0]);
    } else {
        assert(a =~= (a + r1).take(a.len() as int));
        assert(b =~= (b + r2).take(b.len() as int));
    }
}


/// Text that is the canonical text of a value whose numbers are shaped.
pub open spec fn is_shaped_text(t: Seq<char>) -> bool {
    exists|v: JsonValue| numbers_shaped(v) && #[trigger] canonical_text(v) == t
}

/// Text of one rendered object member, `"key":value`.
pub open spec fn is_pair_text(t: Seq<char>) -> bool {
    exists|p: (Seq<char>, Seq<char>)| t == #[trigger] render_pair(p) && is_shaped_text(p.1)
}

/// An element of an array (`pairs` false) or of an object (`pairs` true).
pub open spec fn element_ok(t: Seq<char>, pairs: bool) -> bool {
    if pairs {
        is_pair_text(t)
    } else {
        is_shaped_text(t)
    }
}

/// The sorted member pairs of an object are member pairs of it.
proof fn lemma_sorted_pairs_from_members(ms: Seq<crate::json::JsonMember>)
    ensures
        member_pairs(ms).sort_by(pair_order()).len() == ms.len(),
        forall|i: int|
            0 <= i < ms.len() ==> exists|j: int|
                0 <= j < ms.len() && #[trigger] member_pairs(ms).sort_by(pair_order())[i] == (
                    ms[j].key@,
                    canonical_text(ms[j].value),
                ),
{
    let pa = member_pairs(ms);
    let sorted = pa.sort_by(pair_order());
    lemma_member_pairs_index(ms);
    lemma_pair_total_ordering();
    pa.lemma_sort_by_ensures(pair_order());
    assert(sorted.len() == pa.len()) by {
        broadcast use vstd::seq_lib::group_to_multiset_ensures;

        assert(pa.to_multiset().len() == pa.len());
        assert(sorted.to_multiset().len() == sorted.len());
    }
    assert forall|i: int| 0 <= i < ms.len() implies exists|j: int|
        0 <= j < ms.len() && #[trigger] sorted[i] == (ms[j].key@, canonical_text(ms[j].value)) by {
        assert(sorted.contains(sorted[i]));
        assert(pa.contains(sorted[i]));
        let j = choose|j: int| 0 <= j < pa.len() && pa[j] == sorted[i];
        assert(sorted[i] == (ms[j].key@, canonical_text(ms[j].value)));
    }
}

proof fn lemma_element_first(t: Seq<char>, pairs: bool)
    requires
        element_ok(t, pairs),
    ensures
        t.len() > 0,
        !is_delimiter(t[0]),
{
    if pairs {
        let p = choose|p: (Seq<char>, Seq<char>)| t == #[trigger] render_pair(p) && is_shaped_text(p.1);
        assert(t == seq!['"'] + crate::json::escaped_contents(p.0) + seq!['"'] + seq![':'] + p.1);
    } else {
        let v = choose|v: JsonValue| numbers_shaped(v) && #[trigger] canonical_text(v) == t;
        lemma_first_char(v);
    }
}

/// A canonical text followed by a delimiter (or nothing) ends where it ends.
proof fn lemma_text_delimited(t1: Seq<char>, t2: Seq<char>, r1: Seq<char>, r2: Seq<char>)
    requires
        is_shaped_text(t1),
        is_shaped_text(t2),
        delimited(r1),
        delimited(r2),
        t1 + r1 == t2 + r2,
    ensures
        t1 == t2,
    decreases t1.len() + t2.len(), 0nat,
{
    let x = choose|v: JsonValue| numbers_shaped(v) && #[trigger] canonical_text(v) == t1;
    let y = choose|v: JsonValue| numbers_shaped(v) && #[trigger] canonical_text(v) == t2;
    lemma_first_char(x);
    lemma_first_char(y);
    assert((t1 + r1)[0] == t1[0]);
    assert((t2 + r2)[0] == t2[0]);
    assert(lead_char(x) == lead_char(y));
    match x {
        JsonValue::Null => {},
        JsonValue::Bool(_) => {},
        JsonValue::Number(n) => {
            let m = y->Number_0;
            lemma_number_prefix(n@, m@, r1, r2);
        },
        JsonValue::Str(s) => {
            let s2 = y->Str_0;
            lemma_string_literal_prefix(s@, s2@, r1, r2);
        },
        JsonValue::Array(xs) => {
            let ys = y->Array_0;
            let e1 = canonical_items(xs@);
            let e2 = canonical_items(ys@);
            let j1 = join_with_commas(e1);
            let j2 = join_with_commas(e2);
            let c1 = seq![']'] + r1;
            let c2 = seq![']'] + r2;
            assert(t1 == seq!['['] + j1 + seq![']']);
            assert(t2 == seq!['['] + j2 + seq![']']);
            assert((t1 + r1).skip(1) =~= j1 + c1);
            assert((t2 + r2).skip(1) =~= j2 + c2);
            lemma_canonical_items_index(xs@);
            lemma_canonical_items_index(ys@);
            assert forall|i: int| 0 <= i < e1.len() implies element_ok(#[trigger] e1[i], false) by {
                assert(numbers_shaped(xs@[i]));
                assert(canonical_text(xs@[i]) == e1[i]);
            }
            assert forall|i: int| 0 <= i < e2.len() implies element_ok(#[trigger] e2[i], false) by {
                assert(numbers_shaped(ys@[i]));
                assert(canonical_text(ys@[i]) == e2[i]);
            }
            lemma_list_delimited(e1, e2, false, c1, c2);
        },
        JsonValue::Object(ms) => {
            let ns = y->Object_0;
            let e1 = member_pairs(ms@).sort_by(pair_order()).map_values(|p| render_pair(p));
            let e2 = member_pairs(ns@).sort_by(pair_order()).map_values(|p| render_pair(p));
            let j1 = join_with_commas(e1);
            let j2 = join_with_commas(e2);
            let c1 = seq!['}'] + r1;
            let c2 = seq!['}'] + r2;
            assert(t1 == seq!['{'] + j1 + seq!['}']);
            assert(t2 == seq!['{'] + j2 + seq!['}']);
            assert((t1 + r1).skip(1) =~= j1 + c1);
            assert((t2 + r2).skip(1) =~= j2 + c2);
            lemma_sorted_pairs_from_members(ms@);
            lemma_sorted_pairs_from_members(ns@);
            assert forall|i: int| 0 <= i < e1.len() implies element_ok(#[trigger] e1[i], true) by {
                let p = member_pairs(ms@).sort_by(pair_order())[i];
                let j = choose|j: int|
                    0 <= j < ms@.len() && #[trigger] member_pairs(ms@).sort_by(pair_order())[i] == (
                        ms@[j].key@,
                        canonical_text(ms@[j].value),
                    );
                assert(numbers_shaped(ms@[j].value));
                assert(is_shaped_text(p.1));
                assert(e1[i] == render_pair(p));
            }
            assert forall|i: int| 0 <= i < e2.len() implies element_ok(#[trigger] e2[i], true) by {
                let p = member_pairs(ns@).sort_by(pair_order())[i];
                let j = choose|j: int|
                    0 <= j < ns@.len() && #[trigger] member_pairs(ns@).sort_by(pair_order())[i] == (
                        ns@[j].key@,
                        canonical_text(ns@[j].value),
                    );
                assert(numbers_shaped(ns@[j].value));
                assert(is_shaped_text(p.1));
                assert(e2[i] == render_pair(p));
            }
            lemma_list_delimited(e1, e2, true, c1, c2);
        },
    }
}

/// One element of an array or object followed by a delimiter ends where it
/// ends.
proof fn lemma_element_delimited(e1: Seq<char>, e2: Seq<char>, pairs: bool, w1: Seq<char>, w2: Seq<char>)
    requires
        element_ok(e1, pairs),
        element_ok(e2, pairs),
        delimited(w1),
        delimited(w2),
        e1 + w1 == e2 + w2,
    ensures
        e1 == e2,
    decreases e1.len() + e2.len(), 1nat,
{
    if !pairs {
        lemma_text_delimited(e1, e2, w1, w2);
    } else {
        let p1 = choose|p: (Seq<char>, Seq<char>)| e1 == #[trigger] render_pair(p) && is_shaped_text(p.1);
        let p2 = choose|p: (Seq<char>, Seq<char>)| e2 == #[trigger] render_pair(p) && is_shaped_text(p.1);
        let colon = seq![':'];
        assert(e1 + w1 =~= json_string_literal(p1.0) + (colon + p1.1 + w1));
        assert(e2 + w2 =~= json_string_literal(p2.0) + (colon + p2.1 + w2));
        lemma_string_literal_prefix(p1.0, p2.0, colon + p1.1 + w1, colon + p2.1 + w2);
        assert((colon + p1.1 + w1).skip(1) =~= p1.1 + w1);
        assert((colon + p2.1 + w2).skip(1) =~= p2.1 + w2);
        assert(json_string_literal(p1.0).len() >= 2);
        lemma_text_delimited(p1.1, p2.1, w1, w2);
    }
}

/// A comma-separated list of elements followed by its closing bracket ends
/// where it ends, element by element.
proof fn lemma_list_delimited(e1: Seq<Seq<char>>, e2: Seq<Seq<char>>, pairs: bool, r1: Seq<char>, r2: Seq<char>)
    requires
        forall|i: int| 0 <= i < e1.len() ==> element_ok(#[trigger] e1[i], pairs),
        forall|i: int| 0 <= i < e2.len() ==> element_ok(#[trigger] e2[i], pairs),
        r1.len() > 0,
        r2.len() > 0,
        r1[0] == ']' || r1[0] == '}',
        r2[0] == ']' || r2[0] == '}',
        join_with_commas(e1) + r1 == join_with_commas(e2) + r2,
    ensures
        e1 == e2,
    decreases join_with_commas(e1).len() + join_with_commas(e2).len(), 2nat,
{
    if e1.len() == 0 && e2.len() == 0 {
        assert(e1 =~= e2);
    } else if e1.len() == 0 {
        lemma_join_front(e2);
        lemma_element_first(e2[0], pairs);
        assert(join_with_commas(e1) =~= Seq::<char>::empty());
        assert((join_with_commas(e1) + r1)[0] == r1[0]);
        assert((join_with_commas(e2) + r2)[0] == e2[0][0]);
    } else if e2.len() == 0 {
        lemma_join_front(e1);
        lemma_element_first(e1[0], pairs);
        assert(join_with_commas(e2) =~= Seq::<char>::empty());
        assert((join_with_commas(e2) + r2)[0] == r2[0]);
        assert((join_with_commas(e1) + r1)[0] == e1[0][0]);
    } else {
        lemma_join_front(e1);
        lemma_join_front(e2);
        let w1 = join_tail(e1) + r1;
        let w2 = join_tail(e2) + r2;
        assert(join_with_commas(e1) + r1 =~= e1[0] + w1);
        assert(join_with_commas(e2) + r2 =~= e2[0] + w2);
        assert(w1[0] == if e1.len() == 1 { r1[0] } else { ',' });
        assert(w2[0] == if e2.len() == 1 { r2[0] } else { ',' });
        lemma_element_delimited(e1[0], e2[0], pairs, w1, w2);
        assert(w1 =~= (e1[0] + w1).skip(e1[0].len() as int));
        assert(w2 =~= (e2[0] + w2).skip(e2[0].len() as int));
        if e1.len() == 1 && e2.len() == 1 {
            assert(e1 =~= e2);
        } else if e1.len() == 1 {
            assert(w1[0] == r1[0]);
            assert(w2[0] == ',');
        } else if e2.len() == 1 {
            assert(w2[0] == r2[0]);
            assert(w1[0] == ',');
        } else {
            let rest1 = e1.drop_first();
            let rest2 = e2.drop_first();
            assert(w1.skip(1) =~= join_with_commas(rest1) + r1);
            assert(w2.skip(1) =~= join_with_commas(rest2) + r2);
            assert forall|i: int| 0 <= i < rest1.len() implies element_ok(#[trigger] rest1[i], pairs) by {
                assert(rest1[i] == e1[i + 1]);
            }
            assert forall|i: int| 0 <= i < rest2.len() implies element_ok(#[trigger] rest2[i], pairs) by {
                assert(rest2[i] == e2[i + 1]);
            }
            lemma_list_delimited(rest1, rest2, pairs, r1, r2);
            assert(e1 =~= seq![e1[0]] + rest1);
            assert(e2 =~= seq![e2[0]] + rest2);
        }
    }
}


/// The rendered members of an object, in canonical order.
pub open spec fn rendered_members(ms: Seq<crate::json::JsonMember>) -> Seq<Seq<char>> {
    member_pairs(ms).sort_by(pair_order()).map_values(|p| render_pair(p))
}

/// Every element of the canonical rendering of an array or object value is
/// an element text of its kind.
proof fn lemma_elements_ok(v: JsonValue)
    requires
        numbers_shaped(v),
        v is Array || v is Object,
    ensures
        v is Array ==> forall|i: int|
            0 <= i < canonical_items(v->Array_0@).len() ==> element_ok(
                #[trigger] canonical_items(v->Array_0@)[i],
                false,
            ),
        v is Object ==> forall|i: int|
            0 <= i < rendered_members(v->Object_0@).len() ==> element_ok(
                #[trigger] rendered_members(v->Object_0@)[i],
                true,
            ),
{
    match v {
        JsonValue::Array(xs) => {
            let e = canonical_items(xs@);
            lemma_canonical_items_index(xs@);
            assert forall|i: int| 0 <= i < e.len() implies element_ok(#[trigger] e[i], false) by {
                assert(numbers_shaped(xs@[i]));
                assert(canonical_text(xs@[i]) == e[i]);
            }
        },
        JsonValue::Object(ms) => {
            let e = member_pairs(ms@).sort_by(pair_order()).map_values(|p| render_pair(p));
            lemma_sorted_pairs_from_members(ms@);
            assert forall|i: int| 0 <= i < e.len() implies element_ok(#[trigger] e[i], true) by {
                let p = member_pairs(ms@).sort_by(pair_order())[i];
                let j = choose|j: int|
                    0 <= j < ms@.len() && #[trigger] member_pairs(ms@).sort_by(pair_order())[i] == (
                        ms@[j].key@,
                        canonical_text(ms@[j].value),
                    );
                assert(numbers_shaped(ms@[j].value));
                assert(is_shaped_text(p.1));
                assert(e[i] == render_pair(p));
            }
        },
        _ => {},
    }
}

proof fn lemma_array_items_equal(a: JsonValue, b: JsonValue)
    requires
        numbers_shaped(a),
        numbers_shaped(b),
        a is Array,
        b is Array,
        canonical_text(a) == canonical_text(b),
    ensures
        canonical_items(a->Array_0@) == canonical_items(b->Array_0@),
{
    let e1 = canonical_items(a->Array_0@);
    let e2 = canonical_items(b->Array_0@);
    let close = seq![']'];
    assert(canonical_text(a) == seq!['['] + join_with_commas(e1) + close);
    assert(canonical_text(b) == seq!['['] + join_with_commas(e2) + close);
    assert(canonical_text(a).skip(1) =~= join_with_commas(e1) + close);
    assert(canonical_text(b).skip(1) =~= join_with_commas(e2) + close);
    lemma_elements_ok(a);
    lemma_elements_ok(b);
    lemma_list_delimited(e1, e2, false, close, close);
}

proof fn lemma_object_pairs_equal(a: JsonValue, b: JsonValue)
    requires
        numbers_shaped(a),
        numbers_shaped(b),
        a is Object,
        b is Object,
        canonical_text(a) == canonical_text(b),
    ensures
        member_pairs(a->Object_0@).sort_by(pair_order()) == member_pairs(b->Object_0@).sort_by(
            pair_order(),
        ),
{
    let sa = member_pairs(a->Object_0@).sort_by(pair_order());
    let sb = member_pairs(b->Object_0@).sort_by(pair_order());
    let e1 = rendered_members(a->Object_0@);
    let e2 = rendered_members(b->Object_0@);
    let close = seq!['}'];
    assert(canonical_text(a) == seq!['{'] + join_with_commas(e1) + close);
    assert(canonical_text(b) == seq!['{'] + join_with_commas(e2) + close);
    assert(canonical_text(a).skip(1) =~= join_with_commas(e1) + close);
    assert(canonical_text(b).skip(1) =~= join_with_commas(e2) + close);
    lemma_elements_ok(a);
    lemma_elements_ok(b);
    lemma_list_delimited(e1, e2, true, close, close);
    assert forall|i: int| 0 <= i < sa.len() implies #[trigger] sa[i] == sb[i] by {
        let colon = seq![':'];
        assert(e1[i] == render_pair(sa[i]));
        assert(e2[i] == render_pair(sb[i]));
        assert(render_pair(sa[i]) =~= json_string_literal(sa[i].0) + (colon + sa[i].1));
        assert(render_pair(sb[i]) =~= json_string_literal(sb[i].0) + (colon + sb[i].1));
        lemma_string_literal_prefix(sa[i].0, sb[i].0, colon + sa[i].1, colon + sb[i].1);
        assert((colon + sa[i].1).skip(1) =~= sa[i].1);
        assert((colon + sb[i].1).skip(1) =~= sb[i].1);
    }
    assert(sa =~= sb);
}

/// Canonical texts tell content apart: two values whose numbers are written
/// as JSON numbers have the same canonical text only when they have the same
/// content. (A number held as arbitrary text could imitate another value:
/// the number whose text is `null` renders like `null` itself.)
pub proof fn lemma_equal_canonical_text_means_equivalent(a: JsonValue, b: JsonValue)
    requires
        numbers_shaped(a),
        numbers_shaped(b),
        canonical_text(a) == canonical_text(b),
    ensures
        json_equivalent(a, b),
    decreases a,
{
    lemma_first_char(a);
    lemma_first_char(b);
    match a {
        JsonValue::Str(s) => {
            let s2 = b->Str_0;
            let empty = Seq::<char>::empty();
            assert(json_string_literal(s@) + empty =~= json_string_literal(s2@) + empty);
            lemma_string_literal_prefix(s@, s2@, empty, empty);
        },
        JsonValue::Array(xs) => {
            let ys = b->Array_0;
            lemma_array_items_equal(a, b);
            lemma_canonical_items_index(xs@);
            lemma_canonical_items_index(ys@);
            assert forall|i: int| 0 <= i < xs@.len() implies json_equivalent(
                #[trigger] xs@[i],
                ys@[i],
            ) by {
                assert(decreases_to!(a => a->Array_0));
                assert(decreases_to!(a->Array_0 => xs@));
                assert(decreases_to!(xs@ => xs@[i]));
                assert(canonical_items(xs@)[i] == canonical_items(ys@)[i]);
                lemma_equal_canonical_text_means_equivalent(xs@[i], ys@[i]);
            }
        },
        JsonValue::Object(ms) => {
            let ns = b->Object_0;
            let pa = member_pairs(ms@);
            let pb = member_pairs(ns@);
            let sa = pa.sort_by(pair_order());
            let sb = pb.sort_by(pair_order());
            lemma_object_pairs_equal(a, b);
            lemma_member_pairs_index(ms@);
            lemma_member_pairs_index(ns@);
            lemma_pair_total_ordering();
            pa.lemma_sort_by_ensures(pair_order());
            pb.lemma_sort_by_ensures(pair_order());
            assert forall|i: int| 0 <= i < ms@.len() implies exists|j: int|
                0 <= j < ns@.len() && #[trigger] ms@[i].key@ == #[trigger] ns@[j].key@
                    && json_equivalent(ms@[i].value, ns@[j].value) by {
                let p = pa[i];
                assert(pa.contains(p));
                vstd::seq_lib::to_multiset_contains(pa, p);
                vstd::seq_lib::to_multiset_contains(sa, p);
                assert(sb.contains(p));
                assert(pb.contains(p));
                let j = choose|j: int| 0 <= j < pb.len() && pb[j] == p;
                assert(pb[j] == (ns@[j].key@, canonical_text(ns@[j].value)));
                assert(decreases_to!(a => a->Object_0));
                assert(decreases_to!(a->Object_0 => ms@));
                assert(decreases_to!(ms@ => ms@[i]));
                assert(decreases_to!(ms@[i] => ms@[i].value));
                assert(numbers_shaped(ms@[i].value));
                assert(numbers_shaped(ns@[j].value));
                lemma_equal_canonical_text_means_equivalent(ms@[i].value, ns@[j].value);
            }
            assert forall|j: int| 0 <= j < ns@.len() implies exists|i: int|
                0 <= i < ms@.len() && #[trigger] ms@[i].key@ == #[trigger] ns@[j].key@
                    && json_equivalent(ms@[i].value, ns@[j].value) by {
                let p = pb[j];
                assert(pb.contains(p));
                vstd::seq_lib::to_multiset_contains(pb, p);
                vstd::seq_lib::to_multiset_contains(sb, p);
                assert(sa.contains(p));
                assert(pa.contains(p));
                let i = choose|i: int| 0 <= i < pa.len() && pa[i] == p;
                assert(pa[i] == (ms@[i].key@, canonical_text(ms@[i].value)));
                assert(decreases_to!(a => a->Object_0));
                assert(decreases_to!(a->Object_0 => ms@));
                assert(decreases_to!(ms@ => ms@[i]));
                assert(decreases_to!(ms@[i] => ms@[i].value));
                assert(numbers_shaped(ms@[i].value));
                assert(numbers_shaped(ns@[j].value));
                lemma_equal_canonical_text_means_equivalent(ms@[i].value, ns@[j].value);
            }
        },
        _ => {},
    }
}


/// Canonical texts compare content: of two well-formed values whose numbers
/// are JSON-shaped (as every document read by
/// [`crate::json::canonical_json_from_slice`] is), the canonical texts are
/// equal exactly when the contents are.
pub proof fn lemma_documents_compare_by_content(a: JsonValue, b: JsonValue)
    requires
        crate::json::json_well_formed(a),
        crate::json::json_well_formed(b),
        numbers_shaped(a),
        numbers_shaped(b),
    ensures
        canonical_text(a) == canonical_text(b) <==> json_equivalent(a, b),
{
    if canonical_text(a) == canonical_text(b) {
        lemma_equal_canonical_text_means_equivalent(a, b);
    }
    if json_equivalent(a, b) {
        crate::json::lemma_equivalent_values_have_equal_canonical_text(a, b);
    }
}

} // verus!
