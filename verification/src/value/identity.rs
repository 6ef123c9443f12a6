//! Stable identities of JSON values: a type-preserving key, its hash, and
//! the canonical JSON text (object members sorted by key) behind the hashes
//! of objects and arrays.

use vstd::prelude::*;

use crate::util::hash::{fnv64, stable_hex, stable_u64};
use crate::util::json_type::{JsonType, json_type_of};
use crate::util::json_value::{JsonValue, bool_text, json_quoted, json_text, push_json_text, quote_json};
use crate::util::sort::{
    SortKey, insertion_sorted_by, key_le, lemma_insertion_sorted_map, lemma_insertion_sorted_permutation,
    lemma_map_values_to_multiset, sort_rows,
};
use crate::sketch::space_saving::SketchKey;
use crate::util::dup::Duplicate;
use crate::util::text::{
    compare_text, hex16, lemma_text_lt_order, lemma_text_lt_transitive, push_char, push_str, text_lt,
};
use vstd::utf8::encode_utf8;

verus! {

#[derive(Debug, Clone, PartialEq, Eq, Hash, PartialOrd, Ord)]
pub enum ValueKey {
    Null,
    Bool(bool),
    Integer(String),
    Number(String),
    String(String),
    ObjectHash(String),
    ArrayHash(String),
}

/// A key as its variant (0 to 6, in declaration order), its boolean and its
/// text.
impl View for ValueKey {
    type V = (u8, bool, Seq<char>);

    open spec fn view(&self) -> (u8, bool, Seq<char>) {
        match self {
            ValueKey::Null => (0, false, Seq::empty()),
            ValueKey::Bool(b) => (1, *b, Seq::empty()),
            ValueKey::Integer(text) => (2, false, text@),
            ValueKey::Number(text) => (3, false, text@),
            ValueKey::String(text) => (4, false, text@),
            ValueKey::ObjectHash(text) => (5, false, text@),
            ValueKey::ArrayHash(text) => (6, false, text@),
        }
    }
}

/// How `{:?}` prints a string slice: quoted, with `escape_debug` escapes.
pub uninterp spec fn debug_quoted(text: Seq<char>) -> Seq<char>;

/// Formats a string slice with `{:?}` (std's `Debug` for `str`). The
/// contract names the result and says nothing of its shape.
#[verifier::external_body]
pub(crate) fn debug_quote(text: &str) -> (quoted: String)
    ensures
        quoted@ == debug_quoted(text@),
{
    format!("{:?}", text)
}

/// The name of a key's variant as `{:?}` prints it.
pub open spec fn variant_name(tag: u8) -> Seq<char> {
    if tag == 0 {
        seq!['N', 'u', 'l', 'l']
    } else if tag == 1 {
        seq!['B', 'o', 'o', 'l']
    } else if tag == 2 {
        seq!['I', 'n', 't', 'e', 'g', 'e', 'r']
    } else if tag == 3 {
        seq!['N', 'u', 'm', 'b', 'e', 'r']
    } else if tag == 4 {
        seq!['S', 't', 'r', 'i', 'n', 'g']
    } else if tag == 5 {
        seq!['O', 'b', 'j', 'e', 'c', 't', 'H', 'a', 's', 'h']
    } else {
        seq!['A', 'r', 'r', 'a', 'y', 'H', 'a', 's', 'h']
    }
}

/// The `{:?}` text of a key, such as `Integer("1")`.
pub open spec fn key_debug_text(key: (u8, bool, Seq<char>)) -> Seq<char> {
    if key.0 == 0 {
        variant_name(0)
    } else if key.0 == 1 {
        variant_name(1) + seq!['('] + bool_text(key.1) + seq![')']
    } else {
        variant_name(key.0) + seq!['('] + debug_quoted(key.2) + seq![')']
    }
}

/// The 64-bit stable hash of a key: the hash of its `{:?}` text.
pub open spec fn key_hash64(key: (u8, bool, Seq<char>)) -> u64 {
    fnv64(encode_utf8(key_debug_text(key)))
}

/// The type of the values that a key stands for.
pub open spec fn key_json_type(tag: u8) -> JsonType {
    if tag == 0 {
        JsonType::Null
    } else if tag == 1 {
        JsonType::Boolean
    } else if tag == 2 {
        JsonType::Integer
    } else if tag == 3 {
        JsonType::Number
    } else if tag == 4 {
        JsonType::String
    } else if tag == 5 {
        JsonType::Object
    } else {
        JsonType::Array
    }
}

/// Canonical members are ordered by their keys' text.
pub open spec fn member_le() -> spec_fn((Seq<char>, Seq<char>), (Seq<char>, Seq<char>)) -> bool {
    |a: (Seq<char>, Seq<char>), b: (Seq<char>, Seq<char>)| !text_lt(b.0, a.0)
}

/// Canonical JSON: like the compact text, with object members sorted by key
/// (a stable sort) at every depth.
pub open spec fn canonical_text(value: JsonValue) -> Seq<char>
    decreases value,
{
    match value {
        JsonValue::Array(items) => seq!['['] + canonical_items_text(items@) + seq![']'],
        JsonValue::Object(fields) => seq!['{']
            + members_text(insertion_sorted_by(canonical_members(fields@), member_le())) + seq!['}'],
        _ => json_text(value),
    }
}

pub open spec fn canonical_items_text(items: Seq<JsonValue>) -> Seq<char>
    decreases items,
{
    if items.len() == 0 {
        Seq::empty()
    } else if items.len() == 1 {
        canonical_text(items[0])
    } else {
        canonical_items_text(items.drop_last()) + seq![','] + canonical_text(items.last())
    }
}

/// Each member as its key and the canonical text of its value.
pub open spec fn canonical_members(fields: Seq<(String, JsonValue)>) -> Seq<(Seq<char>, Seq<char>)>
    decreases fields,
{
    if fields.len() == 0 {
        Seq::empty()
    } else {
        canonical_members(fields.drop_last()).push((fields.last().0@, canonical_text(fields.last().1)))
    }
}

/// Members `"key":text`, separated by commas.
pub open spec fn members_text(members: Seq<(Seq<char>, Seq<char>)>) -> Seq<char>
    decreases members.len(),
{
    if members.len() == 0 {
        Seq::empty()
    } else if members.len() == 1 {
        json_quoted(members[0].0) + seq![':'] + members[0].1
    } else {
        members_text(members.drop_last()) + seq![','] + json_quoted(members.last().0) + seq![':']
            + members.last().1
    }
}

/// The key of a value: scalars keep their type and text; objects and arrays
/// are keyed by the hex hash of their canonical JSON.
pub open spec fn value_key_of(value: JsonValue) -> (u8, bool, Seq<char>) {
    match value {
        JsonValue::Null => (0, false, Seq::empty()),
        JsonValue::Bool(b) => (1, b, Seq::empty()),
        JsonValue::Number(number) => if number.is_integer { (2, false, number.text@) } else { (3, false, number.text@) },
        JsonValue::String(text) => (4, false, text@),
        JsonValue::Object(_) => (5, false, hex16(fnv64(encode_utf8(canonical_text(value))))),
        JsonValue::Array(_) => (6, false, hex16(fnv64(encode_utf8(canonical_text(value))))),
    }
}

/// The hash text of a key: the hex hash of its `{:?}` text.
pub open spec fn key_hash_text(key: (u8, bool, Seq<char>)) -> Seq<char> {
    hex16(key_hash64(key))
}

impl ValueKey {
    pub fn json_type(&self) -> (t: JsonType)
        ensures
            t == key_json_type(self@.0),
    {
        match self {
            ValueKey::Null => JsonType::Null,
            ValueKey::Bool(_) => JsonType::Boolean,
            ValueKey::Integer(_) => JsonType::Integer,
            ValueKey::Number(_) => JsonType::Number,
            ValueKey::String(_) => JsonType::String,
            ValueKey::ObjectHash(_) => JsonType::Object,
            ValueKey::ArrayHash(_) => JsonType::Array,
        }
    }

    /// The `{:?}` text of the key.
    pub fn debug_text(&self) -> (text: String)
        ensures
            text@ == key_debug_text(self@),
    {
        let mut text = String::new();
        match self {
            ValueKey::Null => {
                proof { reveal_strlit("Null"); }
                push_str(&mut text, "Null");
            },
            ValueKey::Bool(b) => {
                proof { reveal_strlit("Bool("); reveal_strlit("true)"); reveal_strlit("false)"); }
                push_str(&mut text, "Bool(");
                if *b {
                    push_str(&mut text, "true)");
                } else {
                    push_str(&mut text, "false)");
                }
            },
            ValueKey::Integer(value) => {
                proof { reveal_strlit("Integer"); }
                push_variant(&mut text, "Integer", value.as_str());
            },
            ValueKey::Number(value) => {
                proof { reveal_strlit("Number"); }
                push_variant(&mut text, "Number", value.as_str());
            },
            ValueKey::String(value) => {
                proof { reveal_strlit("String"); }
                push_variant(&mut text, "String", value.as_str());
            },
            ValueKey::ObjectHash(value) => {
                proof { reveal_strlit("ObjectHash"); }
                push_variant(&mut text, "ObjectHash", value.as_str());
            },
            ValueKey::ArrayHash(value) => {
                proof { reveal_strlit("ArrayHash"); }
                push_variant(&mut text, "ArrayHash", value.as_str());
            },
        }
        assert(text@ =~= key_debug_text(self@));
        text
    }

    /// The 64-bit stable hash of the key's `{:?}` text.
    pub fn stable_hash64(&self) -> (hash: u64)
        ensures
            hash == key_hash64(self@),
    {
        let text = self.debug_text();
        stable_u64(text.as_str().as_bytes())
    }

    /// A copy of the key.
    pub fn duplicate(&self) -> (copy: ValueKey)
        ensures
            copy == *self,
    {
        match self {
            ValueKey::Null => ValueKey::Null,
            ValueKey::Bool(b) => ValueKey::Bool(*b),
            ValueKey::Integer(t) => ValueKey::Integer(t.clone()),
            ValueKey::Number(t) => ValueKey::Number(t.clone()),
            ValueKey::String(t) => ValueKey::String(t.clone()),
            ValueKey::ObjectHash(t) => ValueKey::ObjectHash(t.clone()),
            ValueKey::ArrayHash(t) => ValueKey::ArrayHash(t.clone()),
        }
    }

    /// Whether two keys are the same key.
    pub fn same_key(&self, other: &ValueKey) -> (same: bool)
        ensures
            same == (self@ == other@),
    {
        match (self, other) {
            (ValueKey::Null, ValueKey::Null) => true,
            (ValueKey::Bool(a), ValueKey::Bool(b)) => *a == *b,
            (ValueKey::Integer(a), ValueKey::Integer(b)) => *a == *b,
            (ValueKey::Number(a), ValueKey::Number(b)) => *a == *b,
            (ValueKey::String(a), ValueKey::String(b)) => *a == *b,
            (ValueKey::ObjectHash(a), ValueKey::ObjectHash(b)) => *a == *b,
            (ValueKey::ArrayHash(a), ValueKey::ArrayHash(b)) => *a == *b,
            _ => false,
        }
    }
}

impl ValueKey {
    /// The key's variant, 0 to 6 in declaration order.
    pub fn tag(&self) -> (tag: u8)
        ensures
            tag == self@.0,
    {
        match self {
            ValueKey::Null => 0,
            ValueKey::Bool(_) => 1,
            ValueKey::Integer(_) => 2,
            ValueKey::Number(_) => 3,
            ValueKey::String(_) => 4,
            ValueKey::ObjectHash(_) => 5,
            ValueKey::ArrayHash(_) => 6,
        }
    }

    /// The key's text (empty for null and booleans).
    pub fn text(&self) -> (text: &str)
        ensures
            text@ == self@.2,
    {
        proof {
            reveal_strlit("");
        }
        match self {
            ValueKey::Null => "",
            ValueKey::Bool(_) => "",
            ValueKey::Integer(t) => t.as_str(),
            ValueKey::Number(t) => t.as_str(),
            ValueKey::String(t) => t.as_str(),
            ValueKey::ObjectHash(t) => t.as_str(),
            ValueKey::ArrayHash(t) => t.as_str(),
        }
    }
}

/// Keys are ordered by variant, then by boolean, then by text.
pub open spec fn key_view_lt(a: (u8, bool, Seq<char>), b: (u8, bool, Seq<char>)) -> bool {
    a.0 < b.0 || (a.0 == b.0 && !a.1 && b.1) || (a.0 == b.0 && a.1 == b.1 && text_lt(a.2, b.2))
}

impl Duplicate for ValueKey {
    fn duplicate(&self) -> (copy: Self) {
        ValueKey::duplicate(self)
    }
}

impl SketchKey for ValueKey {
    open spec fn view_lt(a: (u8, bool, Seq<char>), b: (u8, bool, Seq<char>)) -> bool {
        key_view_lt(a, b)
    }

    fn same_key(&self, other: &Self) -> (same: bool) {
        ValueKey::same_key(self, other)
    }

    fn key_less(&self, other: &Self) -> (less: bool) {
        let a = self.tag();
        let b = other.tag();
        if a != b {
            return a < b;
        }
        let (x, y) = match (self, other) {
            (ValueKey::Bool(x), ValueKey::Bool(y)) => (*x, *y),
            _ => (false, false),
        };
        if x != y {
            return !x && y;
        }
        compare_text(self.text(), other.text()) == -1
    }

    proof fn lemma_view_order(a: (u8, bool, Seq<char>), b: (u8, bool, Seq<char>)) {
        lemma_text_lt_order(a.2, b.2);
    }

    proof fn lemma_view_lt_transitive(a: (u8, bool, Seq<char>), b: (u8, bool, Seq<char>), c: (u8, bool, Seq<char>)) {
        if a.0 == b.0 && b.0 == c.0 && a.1 == b.1 && b.1 == c.1 {
            lemma_text_lt_transitive(a.2, b.2, c.2);
        }
    }
}

fn push_variant(text: &mut String, name: &str, value: &str)
    ensures
        final(text)@ == old(text)@ + name@ + seq!['('] + debug_quoted(value@) + seq![')'],
{
    push_str(text, name);
    push_char(text, '(');
    let quoted = debug_quote(value);
    push_str(text, quoted.as_str());
    push_char(text, ')');
    assert(final(text)@ =~= old(text)@ + name@ + seq!['('] + debug_quoted(value@) + seq![')']);
}

#[derive(Debug, Clone, PartialEq, Eq)]
pub struct ObservedValue {
    pub key: ValueKey,
    pub stable_hash64: u64,
    pub value_type: JsonType,
}

impl ObservedValue {
    pub fn from_value(value: &JsonValue) -> (observed: Self)
        ensures
            observed.key@ == value_key_of(*value),
            observed.stable_hash64 == key_hash64(value_key_of(*value)),
            observed.value_type == json_type_of(*value),
    {
        Self::from_key(value_key(value))
    }

    fn from_key(key: ValueKey) -> (observed: Self)
        ensures
            observed.key == key,
            observed.stable_hash64 == key_hash64(key@),
            observed.value_type == key_json_type(key@.0),
    {
        let stable_hash64 = key.stable_hash64();
        let value_type = key.json_type();
        Self { key, stable_hash64, value_type }
    }
}

/// The key of a value.
pub fn value_key(value: &JsonValue) -> (key: ValueKey)
    ensures
        key@ == value_key_of(*value),
        key_json_type(key@.0) == json_type_of(*value),
{
    match value {
        JsonValue::Null => ValueKey::Null,
        JsonValue::Bool(b) => ValueKey::Bool(*b),
        JsonValue::Number(number) => {
            if number.is_integer {
                ValueKey::Integer(number.text.clone())
            } else {
                ValueKey::Number(number.text.clone())
            }
        },
        JsonValue::String(text) => ValueKey::String(text.clone()),
        JsonValue::Object(_) => {
            let canonical = canonical_json(value);
            ValueKey::ObjectHash(stable_hex(canonical.as_str().as_bytes()))
        },
        JsonValue::Array(_) => {
            let canonical = canonical_json(value);
            ValueKey::ArrayHash(stable_hex(canonical.as_str().as_bytes()))
        },
    }
}

/// The hash text of a value: the hash text of its key.
pub fn value_hash(value: &JsonValue) -> (hash: String)
    ensures
        hash@ == key_hash_text(value_key_of(*value)),
{
    value_hash_from_key(&value_key(value))
}

/// The hash text of a key: 16 hex digits of the hash of its `{:?}` text.
pub fn value_hash_from_key(key: &ValueKey) -> (hash: String)
    ensures
        hash@ == key_hash_text(key@),
{
    let text = key.debug_text();
    stable_hex(text.as_str().as_bytes())
}

/// A member of a canonical object: its key and its value's canonical text.
pub struct CanonicalMember {
    pub key: String,
    pub text: String,
}

pub open spec fn member_view(member: CanonicalMember) -> (Seq<char>, Seq<char>) {
    (member.key@, member.text@)
}

impl SortKey for CanonicalMember {
    open spec fn sort_le_spec(&self, other: &Self) -> bool {
        !text_lt(other.key@, self.key@)
    }

    fn sort_le(&self, other: &Self) -> (le: bool) {
        compare_text(other.key.as_str(), self.key.as_str()) != -1
    }

    proof fn lemma_sort_le_total(a: &Self, b: &Self) {
        crate::util::text::lemma_text_lt_order(a.key@, b.key@);
    }

    proof fn lemma_sort_le_transitive(a: &Self, b: &Self, c: &Self) {
        crate::util::text::lemma_text_lt_order(a.key@, b.key@);
        crate::util::text::lemma_text_lt_order(b.key@, c.key@);
        crate::util::text::lemma_text_lt_order(a.key@, c.key@);
        if text_lt(c.key@, a.key@) && a.key@ != b.key@ && b.key@ != c.key@ {
            crate::util::text::lemma_text_lt_transitive(a.key@, b.key@, c.key@);
        }
    }
}

fn push_canonical(out: &mut String, value: &JsonValue)
    ensures
        final(out)@ == old(out)@ + canonical_text(*value),
    decreases value,
{
    match value {
        JsonValue::Array(items) => {
            let ghost start = out@;
            push_char(out, '[');
            let mut index: usize = 0;
            while index < items.len()
                invariant
                    index <= items@.len(),
                    *value == JsonValue::Array(*items),
                    out@ == start + seq!['['] + canonical_items_text(items@.subrange(0, index as int)),
                decreases items@.len() - index,
            {
                let ghost prefix = items@.subrange(0, index + 1);
                assert(prefix.drop_last() =~= items@.subrange(0, index as int));
                if index > 0 {
                    push_char(out, ',');
                }
                proof {
                    assert(*items == (*value)->Array_0);
                    assert(decreases_to!(*value => (*value)->Array_0));
                    assert(decreases_to!(*items => items@));
                    assert(decreases_to!(items@ => items@[index as int]));
                }
                push_canonical(out, &items[index]);
                proof {
                    if index == 0 {
                        assert(items@.subrange(0, 0) =~= Seq::<JsonValue>::empty());
                    }
                    assert(out@ =~= start + seq!['['] + canonical_items_text(prefix));
                }
                index = index + 1;
            }
            push_char(out, ']');
            assert(items@.subrange(0, items@.len() as int) =~= items@);
            assert(out@ =~= start + canonical_text(*value));
        },
        JsonValue::Object(fields) => {
            let ghost start = out@;
            let mut members: Vec<CanonicalMember> = Vec::new();
            let mut index: usize = 0;
            while index < fields.len()
                invariant
                    index <= fields@.len(),
                    *value == JsonValue::Object(*fields),
                    members@.map_values(|m: CanonicalMember| member_view(m))
                        == canonical_members(fields@.subrange(0, index as int)),
                decreases fields@.len() - index,
            {
                let ghost prefix = fields@.subrange(0, index + 1);
                assert(prefix.drop_last() =~= fields@.subrange(0, index as int));
                let field = &fields[index];
                proof {
                    assert(*fields == (*value)->Object_0);
                    assert(decreases_to!(*value => (*value)->Object_0));
                    assert(decreases_to!(*fields => fields@));
                    assert(decreases_to!(fields@ => fields@[index as int]));
                    assert(decreases_to!(fields@[index as int] => fields@[index as int].1));
                }
                let mut text = String::new();
                push_canonical(&mut text, &field.1);
                assert(text@ =~= canonical_text(field.1));
                members.push(CanonicalMember { key: field.0.clone(), text });
                assert(members@.map_values(|m: CanonicalMember| member_view(m))
                    =~= canonical_members(prefix));
                index = index + 1;
            }
            assert(fields@.subrange(0, fields@.len() as int) =~= fields@);
            let ghost unsorted = members@;
            let sorted = sort_rows(members);
            let ghost views = sorted@.map_values(|m: CanonicalMember| member_view(m));
            proof {
                lemma_insertion_sorted_map(unsorted, |m: CanonicalMember| member_view(m), key_le::<CanonicalMember>(), member_le());
            }
            push_char(out, '{');
            let mut position: usize = 0;
            while position < sorted.len()
                invariant
                    position <= sorted@.len(),
                    views == sorted@.map_values(|m: CanonicalMember| member_view(m)),
                    out@ == start + seq!['{'] + members_text(views.subrange(0, position as int)),
                decreases sorted@.len() - position,
            {
                let ghost prefix = views.subrange(0, position + 1);
                assert(prefix.drop_last() =~= views.subrange(0, position as int));
                if position > 0 {
                    push_char(out, ',');
                }
                let member = &sorted[position];
                let quoted = quote_json(member.key.as_str());
                push_str(out, quoted.as_str());
                push_char(out, ':');
                push_str(out, member.text.as_str());
                proof {
                    if position == 0 {
                        assert(views.subrange(0, 0) =~= Seq::<(Seq<char>, Seq<char>)>::empty());
                    }
                    assert(out@ =~= start + seq!['{'] + members_text(prefix));
                }
                position = position + 1;
            }
            push_char(out, '}');
            assert(views.subrange(0, views.len() as int) =~= views);
            assert(out@ =~= start + canonical_text(*value));
        },
        _ => {
            push_json_text(out, value);
        },
    }
}

/// The canonical JSON text of a value.
pub fn canonical_json(value: &JsonValue) -> (text: String)
    ensures
        text@ == canonical_text(*value),
{
    let mut text = String::new();
    push_canonical(&mut text, value);
    assert(Seq::<char>::empty() + canonical_text(*value) =~= canonical_text(*value));
    text
}

/// The hash text of a key is the hex form of the key's 64-bit stable hash:
/// `value_hash_from_key` and `stable_hash64` agree on every key.
pub proof fn lemma_key_hash_text_is_hex_of_hash64(key: (u8, bool, Seq<char>))
    ensures
        key_hash_text(key) == hex16(key_hash64(key)),
{
}

/// The canonical members of an object are its members mapped one by one.
pub proof fn lemma_canonical_members_map(fields: Seq<(String, JsonValue)>)
    ensures
        canonical_members(fields) == fields.map_values(|f: (String, JsonValue)| (f.0@, canonical_text(f.1))),
    decreases fields.len(),
{
    if fields.len() > 0 {
        lemma_canonical_members_map(fields.drop_last());
        assert(fields.drop_last().map_values(|f: (String, JsonValue)| (f.0@, canonical_text(f.1))).push(
            (fields.last().0@, canonical_text(fields.last().1)),
        ) =~= fields.map_values(|f: (String, JsonValue)| (f.0@, canonical_text(f.1))));
    } else {
        assert(fields.map_values(|f: (String, JsonValue)| (f.0@, canonical_text(f.1))) =~= Seq::<(Seq<char>, Seq<char>)>::empty());
    }
}

/// No key occurs twice among `fields`.
pub open spec fn distinct_member_keys(fields: Seq<(String, JsonValue)>) -> bool {
    forall|i: int, j: int| #![trigger fields[i], fields[j]] 0 <= i < fields.len() && 0 <= j < fields.len() && i != j
        ==> fields[i].0@ != fields[j].0@
}

/// The canonical text of an object does not depend on the order of its
/// members when no key occurs twice: two such objects with the same members
/// have the same canonical text, and so the same hash.
pub proof fn lemma_canonical_ignores_member_order(a: Vec<(String, JsonValue)>, b: Vec<(String, JsonValue)>)
    requires
        a@.to_multiset() == b@.to_multiset(),
        distinct_member_keys(a@),
    ensures
        canonical_text(JsonValue::Object(a)) == canonical_text(JsonValue::Object(b)),
        value_key_of(JsonValue::Object(a)) == value_key_of(JsonValue::Object(b)),
        key_hash_text(value_key_of(JsonValue::Object(a))) == key_hash_text(value_key_of(JsonValue::Object(b))),
{
    lemma_sorted_members_ignore_order(a@, b@);
}

proof fn lemma_sorted_members_ignore_order(a: Seq<(String, JsonValue)>, b: Seq<(String, JsonValue)>)
    requires
        a.to_multiset() == b.to_multiset(),
        distinct_member_keys(a),
    ensures
        insertion_sorted_by(canonical_members(a), member_le()) == insertion_sorted_by(canonical_members(b), member_le()),
{
    let g = |f: (String, JsonValue)| (f.0@, canonical_text(f.1));
    lemma_canonical_members_map(a);
    lemma_canonical_members_map(b);
    assert(canonical_members(a) =~= a.map_values(g));
    assert(canonical_members(b) =~= b.map_values(g));
    lemma_map_values_to_multiset(a, b, g);
    let ma = canonical_members(a);
    assert forall|x: (Seq<char>, Seq<char>), y: (Seq<char>, Seq<char>)| #[trigger] (member_le())(x, y) || (member_le())(y, x) by {
        crate::util::text::lemma_text_lt_order(x.0, y.0);
    }
    assert forall|x: (Seq<char>, Seq<char>), y: (Seq<char>, Seq<char>), z: (Seq<char>, Seq<char>)| #[trigger] (member_le())(x, y)
        && #[trigger] (member_le())(y, z) implies (member_le())(x, z) by {
        crate::shape::sample::lemma_texts_ordered(x.0, y.0, z.0);
    }
    assert forall|i: int, j: int| #![trigger ma[i], ma[j]] 0 <= i < ma.len() && 0 <= j < ma.len() && (member_le())(ma[i], ma[j])
        && (member_le())(ma[j], ma[i]) implies ma[i] == ma[j] by {
        crate::util::text::lemma_text_lt_order(ma[i].0, ma[j].0);
        assert(ma[i] == g(a[i]) && ma[j] == g(a[j]));
        if i != j {
            assert(a[i].0@ != a[j].0@);
        }
    }
    lemma_insertion_sorted_permutation(ma, canonical_members(b), member_le());
}

} // verus!
