//! Record extraction from JSON documents.
//!
//! A JSON document is walked along a `/`-separated path; the value reached is
//! flattened into records whose keys are dotted paths (`a.b`) and indexed
//! paths (`items[0]`).
use vstd::prelude::*;

use crate::field_map::{insert_entry, lookup, unique_keys, Entries, FieldMap};
use crate::text::{
    chars_of, decimal, split_chars, split_on, string_from_chars, trim, trim_chars,
    u64_to_decimal,
};

verus! {

/// A JSON value. Numbers are held as the text that the JSON library writes
/// for them.
#[derive(Debug)]
pub enum JsonValue {
    Null,
    Bool(bool),
    Number(String),
    Str(String),
    Array(Vec<JsonValue>),
    Object(Vec<(String, JsonValue)>),
}

/// The value under `key` in an object's members (the first member with that
/// key).
pub open spec fn obj_get(members: Seq<(String, JsonValue)>, key: Seq<char>) -> Option<JsonValue>
    decreases members.len(),
{
    if members.len() == 0 {
        None
    } else if members[0].0@ == key {
        Some(members[0].1)
    } else {
        obj_get(members.drop_first(), key)
    }
}

/// The key under which a member `k` of an object at `prefix` is flattened.
pub open spec fn member_key(prefix: Seq<char>, k: Seq<char>) -> Seq<char> {
    if prefix.len() == 0 {
        k
    } else {
        prefix + seq!['.'] + k
    }
}

/// The key under which element `i` of an array at `prefix` is flattened.
pub open spec fn index_key(prefix: Seq<char>, i: nat) -> Seq<char> {
    prefix + seq!['['] + decimal(i) + seq![']']
}

/// The text a scalar is recorded as.
pub open spec fn bool_text(b: bool) -> Seq<char> {
    if b {
        seq!['t', 'r', 'u', 'e']
    } else {
        seq!['f', 'a', 'l', 's', 'e']
    }
}

/// `acc` with every scalar below `v` inserted under its path: object members
/// and array elements in order, strings and numbers as their text, booleans as
/// `true`/`false`, null as the empty string.
pub open spec fn flatten(v: JsonValue, prefix: Seq<char>, acc: Entries) -> Entries
    decreases v, 0int,
{
    match v {
        JsonValue::Object(members) => flatten_members(members@, prefix, acc, members@.len() as int),
        JsonValue::Array(items) => flatten_items(items@, prefix, acc, items@.len() as int),
        JsonValue::Str(s) => insert_entry(acc, prefix, s@),
        JsonValue::Number(n) => insert_entry(acc, prefix, n@),
        JsonValue::Bool(b) => insert_entry(acc, prefix, bool_text(b)),
        JsonValue::Null => insert_entry(acc, prefix, Seq::empty()),
    }
}

/// `acc` after flattening the first `n` members.
pub open spec fn flatten_members(
    members: Seq<(String, JsonValue)>,
    prefix: Seq<char>,
    acc: Entries,
    n: int,
) -> Entries
    decreases members, n,
{
    if n <= 0 || n > members.len() {
        acc
    } else {
        flatten(
            members[n - 1].1,
            member_key(prefix, members[n - 1].0@),
            flatten_members(members, prefix, acc, n - 1),
        )
    }
}

/// `acc` after flattening the first `n` items.
pub open spec fn flatten_items(items: Seq<JsonValue>, prefix: Seq<char>, acc: Entries, n: int) -> Entries
    decreases items, n,
{
    if n <= 0 || n > items.len() {
        acc
    } else {
        flatten(items[n - 1], index_key(prefix, (n - 1) as nat), flatten_items(items, prefix, acc, n - 1))
    }
}

/// The record of all scalars below `v`.
pub open spec fn flat_record(v: JsonValue) -> Entries {
    flatten(v, Seq::empty(), Seq::empty())
}

/// The records that the path `parts` selects from `v`: a `*` step on an array
/// gives one record per element (and ends the walk); a `*` step on anything
/// else is skipped; a key step descends into an object's member, and gives no
/// records when the value is not an object or has no such member; at the end
/// of the path the value reached forms one record.
pub open spec fn json_records(v: JsonValue, parts: Seq<Seq<char>>) -> Seq<Entries>
    decreases parts.len(),
{
    if parts.len() == 0 {
        seq![flat_record(v)]
    } else if parts[0] == seq!['*'] {
        match v {
            JsonValue::Array(items) => Seq::new(items@.len(), |i: int| flat_record(items@[i])),
            _ => json_records(v, parts.drop_first()),
        }
    } else {
        match v {
            JsonValue::Object(members) => match obj_get(members@, parts[0]) {
                Some(c) => json_records(c, parts.drop_first()),
                None => Seq::empty(),
            },
            _ => Seq::empty(),
        }
    }
}

/// The steps of a record path: a blank path stands for `*`; otherwise the
/// pieces between `/`s.
pub open spec fn record_path(path: Seq<char>) -> Seq<Seq<char>> {
    if trim(path).len() == 0 {
        seq![seq!['*']]
    } else {
        split_on(path, '/')
    }
}

/// The non-empty pieces of a sequence of pieces, in order.
pub open spec fn non_empty(parts: Seq<Seq<char>>) -> Seq<Seq<char>>
    decreases parts.len(),
{
    if parts.len() == 0 {
        Seq::empty()
    } else if parts.last().len() == 0 {
        non_empty(parts.drop_last())
    } else {
        non_empty(parts.drop_last()).push(parts.last())
    }
}

/// The string that the path `parts` reaches in `v`: `*` steps into the first
/// element of an array, a key step into an object's member; `None` when a step
/// cannot be taken or the value reached is not a string.
pub open spec fn json_string(v: JsonValue, parts: Seq<Seq<char>>) -> Option<Seq<char>>
    decreases parts.len(),
{
    if parts.len() == 0 {
        match v {
            JsonValue::Str(s) => Some(s@),
            _ => None,
        }
    } else if parts[0] == seq!['*'] {
        match v {
            JsonValue::Array(items) => if items@.len() > 0 {
                json_string(items@[0], parts.drop_first())
            } else {
                None
            },
            _ => None,
        }
    } else {
        match v {
            JsonValue::Object(members) => match obj_get(members@, parts[0]) {
                Some(c) => json_string(c, parts.drop_first()),
                None => None,
            },
            _ => None,
        }
    }
}

// ---------------------------------------------------------------------------
// Executable functions.
// ---------------------------------------------------------------------------

fn is_star(p: &Vec<char>) -> (r: bool)
    ensures
        r == (p@ == seq!['*']),
{
    if p.len() == 1 && p[0] == '*' {
        assert(p@ =~= seq!['*']);
        true
    } else {
        false
    }
}

/// The member of `members` under `key`.
fn member<'a>(members: &'a Vec<(String, JsonValue)>, key: &Vec<char>) -> (r: Option<&'a JsonValue>)
    ensures
        match r {
            Some(v) => obj_get(members@, key@) == Some(*v),
            None => obj_get(members@, key@) is None,
        },
{
    let ghost m = members@;
    assert(m.skip(0) =~= m);
    let mut i: usize = 0;
    while i < members.len()
        invariant
            m == members@,
            i <= m.len(),
            obj_get(m, key@) == obj_get(m.skip(i as int), key@),
        decreases members.len() - i,
    {
        assert(m.skip(i as int).drop_first() =~= m.skip(i + 1));
        let k = chars_of(members[i].0.as_str());
        if crate::text::chars_eq(k.as_slice(), key.as_slice()) {
            return Some(&members[i].1);
        }
        i = i + 1;
    }
    None
}

fn bool_chars(b: bool) -> (r: Vec<char>)
    ensures
        r@ == bool_text(b),
{
    let r = if b {
        vec!['t', 'r', 'u', 'e']
    } else {
        vec!['f', 'a', 'l', 's', 'e']
    };
    assert(r@ =~= bool_text(b));
    r
}

/// Inserts every scalar below `value` into `map`, under its path below
/// `prefix`.
pub fn flatten_json(value: &JsonValue, prefix: &Vec<char>, map: &mut FieldMap)
    ensures
        final(map)@ == flatten(*value, prefix@, old(map)@),
    decreases value, 1int,
{
    match value {
        JsonValue::Object(members) => {
            flatten_members_exec(members, prefix, map);
        },
        JsonValue::Array(items) => {
            flatten_items_exec(items, prefix, map);
        },
        JsonValue::Str(s) => {
            map.insert(string_from_chars(prefix.as_slice()), s.clone());
        },
        JsonValue::Number(n) => {
            map.insert(string_from_chars(prefix.as_slice()), n.clone());
        },
        JsonValue::Bool(b) => {
            let t = bool_chars(*b);
            map.insert(string_from_chars(prefix.as_slice()), string_from_chars(t.as_slice()));
        },
        JsonValue::Null => {
            map.insert(string_from_chars(prefix.as_slice()), String::new());
        },
    }
}

fn flatten_members_exec(members: &Vec<(String, JsonValue)>, prefix: &Vec<char>, map: &mut FieldMap)
    ensures
        final(map)@ == flatten_members(members@, prefix@, old(map)@, members@.len() as int),
    decreases members, 0int,
{
    let ghost acc0 = map@;
    let mut i: usize = 0;
    while i < members.len()
        invariant
            i <= members@.len(),
            map@ == flatten_members(members@, prefix@, acc0, i as int),
        decreases members.len() - i,
    {
        let k = chars_of(members[i].0.as_str());
        let key = if prefix.len() == 0 {
            k
        } else {
            let mut key = prefix.clone();
            key.push('.');
            crate::text::append_chars(&mut key, k.as_slice());
            key
        };
        assert(key@ == member_key(prefix@, members@[i as int].0@));
        proof {
            assert(decreases_to!(members => members@[i as int].1));
        }
        flatten_json(&members[i].1, &key, map);
        i = i + 1;
    }
}

fn flatten_items_exec(items: &Vec<JsonValue>, prefix: &Vec<char>, map: &mut FieldMap)
    ensures
        final(map)@ == flatten_items(items@, prefix@, old(map)@, items@.len() as int),
    decreases items, 0int,
{
    let ghost acc0 = map@;
    let mut i: usize = 0;
    while i < items.len()
        invariant
            i <= items@.len(),
            map@ == flatten_items(items@, prefix@, acc0, i as int),
        decreases items.len() - i,
    {
        let mut key = prefix.clone();
        key.push('[');
        let digits = u64_to_decimal(i as u64);
        crate::text::append_chars(&mut key, digits.as_slice());
        key.push(']');
        assert(key@ =~= index_key(prefix@, i as nat));
        proof {
            assert(decreases_to!(items => items@[i as int]));
        }
        flatten_json(&items[i], &key, map);
        i = i + 1;
    }
}

/// The record of all scalars below `value`.
pub fn flat_record_exec(value: &JsonValue) -> (r: FieldMap)
    ensures
        r@ == flat_record(*value),
{
    let mut m = FieldMap::new();
    let empty: Vec<char> = Vec::new();
    flatten_json(value, &empty, &mut m);
    m
}

/// The path steps of `record_path(path)`.
fn record_path_exec(path: &str) -> (r: Vec<Vec<char>>)
    ensures
        r@.len() == record_path(path@).len(),
        forall|i: int| 0 <= i < r@.len() ==> #[trigger] r@[i]@ == record_path(path@)[i],
{
    let cs = chars_of(path);
    let t = trim_chars(cs.as_slice());
    if t.len() == 0 {
        let mut r: Vec<Vec<char>> = Vec::new();
        r.push(vec!['*']);
        assert(r@[0]@ =~= seq!['*']);
        r
    } else {
        split_chars(cs.as_slice(), '/')
    }
}

// ---------------------------------------------------------------------------
// Parsing JSON text.
// ---------------------------------------------------------------------------

/// `serde_json::Value`, the JSON library's document type.
#[verifier::external_type_specification]
#[verifier::external_body]
pub struct ExSerdeJsonValue(serde_json::Value);

/// Names what `parse_json` gives for a text: the document `serde_json` parses
/// it into, as a `JsonValue`, or the text of its error.
pub uninterp spec fn spec_parse_json(text: Seq<char>) -> Result<JsonValue, Seq<char>>;

/// A `serde_json::Value` as a `JsonValue`, one variant for one: numbers as
/// the text `serde_json` writes for them, object members in the map's order
/// (sorted by key, as `serde_json::Map` keeps them).
#[verifier::external_body]
fn json_of_serde(v: &serde_json::Value) -> JsonValue {
    match v {
        serde_json::Value::Null => JsonValue::Null,
        serde_json::Value::Bool(b) => JsonValue::Bool(*b),
        serde_json::Value::Number(n) => JsonValue::Number(n.to_string()),
        serde_json::Value::String(t) => JsonValue::Str(t.clone()),
        serde_json::Value::Array(items) => JsonValue::Array(items.iter().map(json_of_serde).collect()),
        serde_json::Value::Object(m) => JsonValue::Object(m.iter().map(|(k, x)| (k.clone(), json_of_serde(x))).collect()),
    }
}

/// Parses JSON text: `serde_json::from_str` into a `serde_json::Value`,
/// converted one for one (`json_of_serde`); on a parse error, the error's
/// text (`to_string`). The outcome is named by `spec_parse_json`; it depends on
/// the text alone (the map type of `serde_json` is ordered).
#[verifier::external_body]
pub fn parse_json(text: &str) -> (r: Result<JsonValue, String>)
    ensures
        match (r, spec_parse_json(text@)) {
            (Ok(v), Ok(sv)) => v == sv,
            (Err(e), Err(se)) => e@ == se,
            _ => false,
        },
{
    match serde_json::from_str::<serde_json::Value>(text) {
        Ok(v) => Ok(json_of_serde(&v)),
        Err(e) => Err(e.to_string()),
    }
}

/// The records that `path` selects from the document that `text` parses
/// into (see `json_records`), or the parse error's text.
pub fn extract_json_text(text: &str, path: &str) -> (r: Result<Vec<FieldMap>, String>)
    ensures
        match spec_parse_json(text@) {
            Ok(v) => r matches Ok(x) && x@.map_values(|m: FieldMap| m@) == json_records(v, record_path(path@)),
            Err(e) => r matches Err(m) && m@ == e,
        },
{
    match parse_json(text) {
        Ok(doc) => Ok(extract_json_value(&doc, path)),
        Err(e) => Err(e),
    }
}

/// The records that `path` selects from `value`; see `json_records`.
pub fn extract_json_value(value: &JsonValue, path: &str) -> (r: Vec<FieldMap>)
    ensures
        r@.map_values(|m: FieldMap| m@) == json_records(*value, record_path(path@)),
{
    let parts = record_path_exec(path);
    let ghost pv = record_path(path@);
    assert(pv.skip(0) =~= pv);
    let mut current: &JsonValue = value;
    let mut i: usize = 0;
    while i < parts.len()
        invariant
            parts@.len() == pv.len(),
            forall|k: int| 0 <= k < parts@.len() ==> #[trigger] parts@[k]@ == pv[k],
            i <= pv.len(),
            pv == record_path(path@),
            json_records(*value, pv) == json_records(*current, pv.skip(i as int)),
        decreases parts.len() - i,
    {
        let ghost rest = pv.skip(i as int);
        assert(rest[0] == pv[i as int]);
        assert(rest.drop_first() =~= pv.skip(i + 1));
        assert(parts@[i as int]@ == pv[i as int]);
        if is_star(&parts[i]) {
            match current {
                JsonValue::Array(items) => {
                    let mut out: Vec<FieldMap> = Vec::new();
                    let mut j: usize = 0;
                    while j < items.len()
                        invariant
                            j <= items@.len(),
                            out@.map_values(|m: FieldMap| m@) =~= Seq::new(
                                j as nat,
                                |k: int| flat_record(items@[k]),
                            ),
                        decreases items.len() - j,
                    {
                        let ghost before = out@;
                        let rec = flat_record_exec(&items[j]);
                        out.push(rec);
                        assert(out@.map_values(|m: FieldMap| m@) =~= before.map_values(
                            |m: FieldMap| m@,
                        ).push(flat_record(items@[j as int])));
                        j = j + 1;
                    }
                    return out;
                },
                _ => {},
            }
        } else {
            match current {
                JsonValue::Object(members) => match member(members, &parts[i]) {
                    Some(c) => {
                        current = c;
                    },
                    None => {
                        let out: Vec<FieldMap> = Vec::new();
                        assert(out@.map_values(|m: FieldMap| m@) =~= Seq::<Entries>::empty());
                        return out;
                    },
                },
                _ => {
                    let out: Vec<FieldMap> = Vec::new();
                    assert(out@.map_values(|m: FieldMap| m@) =~= Seq::<Entries>::empty());
                    return out;
                },
            }
        }
        i = i + 1;
    }
    assert(pv.skip(i as int) =~= Seq::<Seq<char>>::empty());
    let mut out: Vec<FieldMap> = Vec::new();
    out.push(flat_record_exec(current));
    assert(out@.map_values(|m: FieldMap| m@) =~= seq![flat_record(*current)]);
    out
}

/// The non-empty `/`-separated pieces of `path`.
fn string_path_exec(path: &str) -> (r: Vec<Vec<char>>)
    ensures
        r@.len() == non_empty(split_on(path@, '/')).len(),
        forall|i: int| 0 <= i < r@.len() ==> #[trigger] r@[i]@ == non_empty(split_on(path@, '/'))[i],
{
    let cs = chars_of(path);
    let pieces = split_chars(cs.as_slice(), '/');
    let ghost pv = split_on(path@, '/');
    let mut r: Vec<Vec<char>> = Vec::new();
    let mut i: usize = 0;
    while i < pieces.len()
        invariant
            pieces@.len() == pv.len(),
            forall|k: int| 0 <= k < pieces@.len() ==> #[trigger] pieces@[k]@ == pv[k],
            i <= pv.len(),
            r@.len() == non_empty(pv.take(i as int)).len(),
            forall|k: int| 0 <= k < r@.len() ==> #[trigger] r@[k]@ == non_empty(pv.take(i as int))[k],
        decreases pieces.len() - i,
    {
        assert(pv.take(i + 1).drop_last() =~= pv.take(i as int));
        assert(pv.take(i + 1).last() == pv[i as int]);
        if pieces[i].len() > 0 {
            r.push(pieces[i].clone());
        }
        i = i + 1;
    }
    assert(pv.take(pv.len() as int) =~= pv);
    r
}

/// The string that `path` reaches in `value`; see `json_string`. Empty
/// pieces of the path are ignored.
pub fn extract_json_string(value: &JsonValue, path: &str) -> (r: Option<String>)
    ensures
        r.deep_view() == json_string(*value, non_empty(split_on(path@, '/'))),
{
    let parts = string_path_exec(path);
    let ghost pv = non_empty(split_on(path@, '/'));
    assert(pv.skip(0) =~= pv);
    let mut current: &JsonValue = value;
    let mut i: usize = 0;
    while i < parts.len()
        invariant
            parts@.len() == pv.len(),
            forall|k: int| 0 <= k < parts@.len() ==> #[trigger] parts@[k]@ == pv[k],
            i <= pv.len(),
            pv == non_empty(split_on(path@, '/')),
            json_string(*value, pv) == json_string(*current, pv.skip(i as int)),
        decreases parts.len() - i,
    {
        let ghost rest = pv.skip(i as int);
        assert(rest[0] == pv[i as int]);
        assert(rest.drop_first() =~= pv.skip(i + 1));
        assert(parts@[i as int]@ == pv[i as int]);
        if is_star(&parts[i]) {
            match current {
                JsonValue::Array(items) => {
                    if items.len() == 0 {
                        return None;
                    }
                    current = &items[0];
                },
                _ => {
                    return None;
                },
            }
        } else {
            match current {
                JsonValue::Object(members) => match member(members, &parts[i]) {
                    Some(c) => {
                        current = c;
                    },
                    None => {
                        return None;
                    },
                },
                _ => {
                    return None;
                },
            }
        }
        i = i + 1;
    }
    assert(pv.skip(i as int) =~= Seq::<Seq<char>>::empty());
    match current {
        JsonValue::Str(s) => Some(s.clone()),
        _ => None,
    }
}

/// A blank path means the whole document: it selects what `*` selects.
pub proof fn law_blank_path_is_star(v: JsonValue, path: Seq<char>)
    requires
        trim(path).len() == 0,
    ensures
        json_records(v, record_path(path)) == json_records(v, seq![seq!['*']]),
{
}

/// On an array, `*` (and so a blank path) gives one record per element, each
/// the flattened element.
pub proof fn law_star_on_array(items: Vec<JsonValue>)
    ensures
        json_records(JsonValue::Array(items), seq![seq!['*']]).len() == items@.len(),
        forall|i: int| 0 <= i < items@.len() ==> #[trigger] json_records(JsonValue::Array(items), seq![seq!['*']])[i] == flat_record(items@[i]),
{
}

/// On anything but an array, `*` selects the value itself as one record.
pub proof fn law_star_on_non_array(v: JsonValue)
    requires
        !(v is Array),
    ensures
        json_records(v, seq![seq!['*']]) == seq![flat_record(v)],
{
    reveal_with_fuel(json_records, 2);
    assert(seq![seq!['*']].drop_first() =~= Seq::<Seq<char>>::empty());
}

/// A scalar reached at a path is recorded in full under that path: a number
/// as exactly its text, a string as exactly itself, a boolean as `true` or
/// `false`, null as the empty text; the rest of the record keeps its values.
pub proof fn law_scalars_recorded_in_full(t: String, b: bool, prefix: Seq<char>, acc: Entries, other: Seq<char>)
    requires
        unique_keys(acc),
    ensures
        lookup(flatten(JsonValue::Number(t), prefix, acc), prefix) == Some(t@),
        lookup(flatten(JsonValue::Str(t), prefix, acc), prefix) == Some(t@),
        lookup(flatten(JsonValue::Bool(b), prefix, acc), prefix) == Some(
            if b {
                seq!['t', 'r', 'u', 'e']
            } else {
                seq!['f', 'a', 'l', 's', 'e']
            },
        ),
        lookup(flatten(JsonValue::Null, prefix, acc), prefix) == Some(Seq::<char>::empty()),
        other != prefix ==> lookup(flatten(JsonValue::Number(t), prefix, acc), other) == lookup(acc, other),
{
    crate::field_map::lemma_insert_entry(acc, prefix, t@);
    crate::field_map::lemma_insert_entry(acc, prefix, bool_text(b));
    crate::field_map::lemma_insert_entry(acc, prefix, Seq::empty());
}

/// A document that is one object with one number member gives, for an empty
/// path, one record holding exactly that member's key and the number's text.
pub proof fn law_number_member_record(k: String, t: String, members: Vec<(String, JsonValue)>)
    requires
        members@ == seq![(k, JsonValue::Number(t))],
    ensures
        json_records(JsonValue::Object(members), record_path(Seq::empty())) == seq![seq![(k@, t@)]],
{
    assert(trim(Seq::<char>::empty()) =~= Seq::<char>::empty()) by {
        reveal_with_fuel(crate::text::trim_start, 1);
        reveal_with_fuel(crate::text::trim_end, 1);
    }
    let v = JsonValue::Object(members);
    assert(record_path(Seq::empty()) == seq![seq!['*']]);
    assert(seq![seq!['*']].drop_first() =~= Seq::<Seq<char>>::empty());
    assert(flatten_members(members@, Seq::empty(), Seq::empty(), 0) == Seq::<(Seq<char>, Seq<char>)>::empty());
    assert(member_key(Seq::empty(), k@) == k@);
    crate::field_map::lemma_find_key(Seq::<(Seq<char>, Seq<char>)>::empty(), k@);
    assert(insert_entry(Seq::empty(), k@, t@) =~= seq![(k@, t@)]);
    assert(flatten(JsonValue::Number(t), k@, Seq::empty()) == insert_entry(Seq::empty(), k@, t@));
    assert(flatten_members(members@, Seq::empty(), Seq::empty(), 1) == flatten(
        members@[0].1,
        member_key(Seq::empty(), members@[0].0@),
        flatten_members(members@, Seq::empty(), Seq::empty(), 0),
    ));
    assert(flat_record(v) == seq![(k@, t@)]);
    assert(json_records(v, Seq::<Seq<char>>::empty()) == seq![flat_record(v)]);
    assert(json_records(v, seq![seq!['*']]) == json_records(v, Seq::<Seq<char>>::empty()));
}

} // verus!
