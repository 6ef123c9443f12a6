//! Shape identity of an object: its field set, its field types, and where
//! it stands in the document.

use vstd::prelude::*;

use crate::field::id::sep;
use crate::util::hash::{fnv64, stable_hex};
use crate::util::json_type::{JsonType, json_type_name, json_type_of};
use crate::util::json_value::{JsonValue, json_quoted, quote_json};
use crate::util::sort::{
    TextPairRow, TextRow, antisymmetric_on, insertion_sorted_by, key_le, lemma_insertion_sorted_map,
    lemma_insertion_sorted_permutation, lemma_map_values_to_multiset, lemma_text_le_order, lemma_text_pair_le_order,
    sort_rows, text_le, text_pair_le,
};
use crate::util::text::{hex16, push_char, push_str};
use vstd::utf8::encode_utf8;

verus! {

#[derive(Debug, Clone, PartialEq, Eq, Hash)]
pub struct ShapeKey {
    pub canonical_path: String,
    pub site_path: Option<String>,
    pub schema_path: String,
    pub field_set_hash: String,
    pub type_set_hash: String,
}

#[derive(Debug, Clone, PartialEq, Eq)]
pub struct ShapeFacts {
    pub shape_id: String,
    pub field_set_hash: String,
    pub type_set_hash: String,
    pub field_set_json: String,
    pub type_set_json: String,
}

/// The member names of an object, in stored order.
pub open spec fn field_names_of(object: Seq<(String, JsonValue)>) -> Seq<Seq<char>> {
    object.map_values(|field: (String, JsonValue)| field.0@)
}

/// Each member's name with the name of its value's type.
pub open spec fn type_pairs_of(object: Seq<(String, JsonValue)>) -> Seq<(Seq<char>, Seq<char>)> {
    object.map_values(|field: (String, JsonValue)| (field.0@, json_type_name(json_type_of(field.1))))
}

/// Quoted strings separated by commas.
pub open spec fn quoted_list(items: Seq<Seq<char>>) -> Seq<char>
    decreases items.len(),
{
    if items.len() == 0 {
        Seq::empty()
    } else if items.len() == 1 {
        json_quoted(items[0])
    } else {
        quoted_list(items.drop_last()) + seq![','] + json_quoted(items.last())
    }
}

/// The JSON text of a pair of strings: `["a","b"]`.
pub open spec fn pair_text(pair: (Seq<char>, Seq<char>)) -> Seq<char> {
    seq!['['] + json_quoted(pair.0) + seq![','] + json_quoted(pair.1) + seq![']']
}

/// Pair texts separated by commas.
pub open spec fn pair_list(pairs: Seq<(Seq<char>, Seq<char>)>) -> Seq<char>
    decreases pairs.len(),
{
    if pairs.len() == 0 {
        Seq::empty()
    } else if pairs.len() == 1 {
        pair_text(pairs[0])
    } else {
        pair_list(pairs.drop_last()) + seq![','] + pair_text(pairs.last())
    }
}

/// The JSON array of the sorted member names.
pub open spec fn field_set_json_text(object: Seq<(String, JsonValue)>) -> Seq<char> {
    seq!['['] + quoted_list(insertion_sorted_by(field_names_of(object), text_le())) + seq![']']
}

/// The JSON array of the sorted `[name, type]` pairs.
pub open spec fn type_set_json_text(object: Seq<(String, JsonValue)>) -> Seq<char> {
    seq!['['] + pair_list(insertion_sorted_by(type_pairs_of(object), text_pair_le())) + seq![']']
}

pub open spec fn hash_text(text: Seq<char>) -> Seq<char> {
    hex16(fnv64(encode_utf8(text)))
}

/// The text of an optional path: the path, or nothing.
pub open spec fn optional_text(text: Option<Seq<char>>) -> Seq<char> {
    match text {
        Some(t) => t,
        None => Seq::empty(),
    }
}

/// The hash input of a shape id.
pub open spec fn shape_input(
    canonical_path: Seq<char>,
    site_path: Option<Seq<char>>,
    schema_path: Seq<char>,
    object: Seq<(String, JsonValue)>,
) -> Seq<char> {
    canonical_path + sep() + optional_text(site_path) + sep() + schema_path + sep()
        + hash_text(field_set_json_text(object)) + sep() + hash_text(type_set_json_text(object))
}

pub open spec fn optional_str_view(text: Option<&str>) -> Option<Seq<char>> {
    match text {
        Some(t) => Some(t@),
        None => None,
    }
}

fn push_quoted_list(out: &mut String, items: &Vec<TextRow>)
    ensures
        final(out)@ == old(out)@ + quoted_list(items@.map_values(|r: TextRow| r.text@)),
{
    let ghost views = items@.map_values(|r: TextRow| r.text@);
    let ghost start = out@;
    let mut index: usize = 0;
    assert(views.subrange(0, 0) =~= Seq::<Seq<char>>::empty());
    while index < items.len()
        invariant
            index <= items@.len(),
            views == items@.map_values(|r: TextRow| r.text@),
            out@ == start + quoted_list(views.subrange(0, index as int)),
        decreases items@.len() - index,
    {
        let ghost prefix = views.subrange(0, index + 1);
        assert(prefix.drop_last() =~= views.subrange(0, index as int));
        if index > 0 {
            push_char(out, ',');
        }
        let quoted = quote_json(items[index].text.as_str());
        push_str(out, quoted.as_str());
        assert(out@ =~= start + quoted_list(prefix));
        index = index + 1;
    }
    assert(views.subrange(0, items@.len() as int) =~= views);
}

fn push_pair_list(out: &mut String, pairs: &Vec<TextPairRow>)
    ensures
        final(out)@ == old(out)@ + pair_list(pairs@.map_values(|r: TextPairRow| (r.first@, r.second@))),
{
    let ghost views = pairs@.map_values(|r: TextPairRow| (r.first@, r.second@));
    let ghost start = out@;
    let mut index: usize = 0;
    assert(views.subrange(0, 0) =~= Seq::<(Seq<char>, Seq<char>)>::empty());
    while index < pairs.len()
        invariant
            index <= pairs@.len(),
            views == pairs@.map_values(|r: TextPairRow| (r.first@, r.second@)),
            out@ == start + pair_list(views.subrange(0, index as int)),
        decreases pairs@.len() - index,
    {
        let ghost prefix = views.subrange(0, index + 1);
        assert(prefix.drop_last() =~= views.subrange(0, index as int));
        if index > 0 {
            push_char(out, ',');
        }
        let pair = &pairs[index];
        push_char(out, '[');
        let first = quote_json(pair.first.as_str());
        push_str(out, first.as_str());
        push_char(out, ',');
        let second = quote_json(pair.second.as_str());
        push_str(out, second.as_str());
        push_char(out, ']');
        assert(out@ =~= start + pair_list(prefix));
        index = index + 1;
    }
    assert(views.subrange(0, pairs@.len() as int) =~= views);
}

/// The JSON array of the sorted member names of `object`.
pub fn field_set_json(object: &Vec<(String, JsonValue)>) -> (text: String)
    ensures
        text@ == field_set_json_text(object@),
{
    let mut names: Vec<TextRow> = Vec::new();
    let mut index: usize = 0;
    while index < object.len()
        invariant
            index <= object@.len(),
            names@.len() == index,
            forall|k: int| 0 <= k < index ==> #[trigger] names@[k].text@ == object@[k].0@,
        decreases object@.len() - index,
    {
        names.push(TextRow { text: object[index].0.clone() });
        index = index + 1;
    }
    assert(names@.map_values(|r: TextRow| r.text@) =~= field_names_of(object@));
    let ghost unsorted = names@;
    let sorted = sort_rows(names);
    proof {
        lemma_insertion_sorted_map(unsorted, |r: TextRow| r.text@, key_le::<TextRow>(), text_le());
    }
    let mut text = String::new();
    push_char(&mut text, '[');
    push_quoted_list(&mut text, &sorted);
    push_char(&mut text, ']');
    assert(text@ =~= field_set_json_text(object@));
    text
}

/// The JSON array of the sorted `[name, type]` pairs of `object`.
pub fn type_set_json(object: &Vec<(String, JsonValue)>) -> (text: String)
    ensures
        text@ == type_set_json_text(object@),
{
    let mut pairs: Vec<TextPairRow> = Vec::new();
    let mut index: usize = 0;
    while index < object.len()
        invariant
            index <= object@.len(),
            pairs@.len() == index,
            forall|k: int| 0 <= k < index ==> (#[trigger] pairs@[k]).first@ == object@[k].0@
                && pairs@[k].second@ == json_type_name(json_type_of(object@[k].1)),
        decreases object@.len() - index,
    {
        let field = &object[index];
        let kind_name = JsonType::from_value(&field.1).as_sql_str();
        pairs.push(TextPairRow { first: field.0.clone(), second: kind_name.to_owned() });
        index = index + 1;
    }
    assert(pairs@.map_values(|r: TextPairRow| (r.first@, r.second@)) =~= type_pairs_of(object@));
    let ghost unsorted = pairs@;
    let sorted = sort_rows(pairs);
    proof {
        lemma_insertion_sorted_map(unsorted, |r: TextPairRow| (r.first@, r.second@), key_le::<TextPairRow>(), text_pair_le());
    }
    let mut text = String::new();
    push_char(&mut text, '[');
    push_pair_list(&mut text, &sorted);
    push_char(&mut text, ']');
    assert(text@ =~= type_set_json_text(object@));
    text
}

pub fn compute_shape_facts(
    canonical_path: &str,
    site_path: Option<&str>,
    schema_path: &str,
    object: &Vec<(String, JsonValue)>,
) -> (facts: ShapeFacts)
    ensures
        facts.field_set_json@ == field_set_json_text(object@),
        facts.type_set_json@ == type_set_json_text(object@),
        facts.field_set_hash@ == hash_text(field_set_json_text(object@)),
        facts.type_set_hash@ == hash_text(type_set_json_text(object@)),
        facts.shape_id@ == hash_text(shape_input(canonical_path@, optional_str_view(site_path), schema_path@, object@)),
{
    let field_set_json = field_set_json(object);
    let field_set_hash = stable_hex(field_set_json.as_str().as_bytes());
    let type_set_json = type_set_json(object);
    let type_set_hash = stable_hex(type_set_json.as_str().as_bytes());
    let mut input = String::new();
    push_str(&mut input, canonical_path);
    push_char(&mut input, '\x1f');
    match site_path {
        Some(site) => push_str(&mut input, site),
        None => {},
    }
    push_char(&mut input, '\x1f');
    push_str(&mut input, schema_path);
    push_char(&mut input, '\x1f');
    push_str(&mut input, field_set_hash.as_str());
    push_char(&mut input, '\x1f');
    push_str(&mut input, type_set_hash.as_str());
    assert(input@ =~= shape_input(canonical_path@, optional_str_view(site_path), schema_path@, object@));
    let shape_id = stable_hex(input.as_str().as_bytes());
    ShapeFacts { shape_id, field_set_hash, type_set_hash, field_set_json, type_set_json }
}

/// The field set of an object depends only on its member names, not on
/// their order or their values: two objects whose members have the same
/// names (each as often) have the same field set text, and so the same
/// field set hash.
pub proof fn lemma_field_set_ignores_member_order(a: Seq<(String, JsonValue)>, b: Seq<(String, JsonValue)>)
    requires
        field_names_of(a).to_multiset() == field_names_of(b).to_multiset(),
    ensures
        field_set_json_text(a) == field_set_json_text(b),
        hash_text(field_set_json_text(a)) == hash_text(field_set_json_text(b)),
{
    lemma_text_le_order();
    assert(antisymmetric_on(field_names_of(a), text_le()));
    lemma_insertion_sorted_permutation(field_names_of(a), field_names_of(b), text_le());
}

/// An object's shape depends only on its members' names and value types,
/// not on their order or their values: two objects whose members have the
/// same `(name, type)` pairs (each as often) have the same field set, the
/// same type set and, in the same context, the same shape id input.
pub proof fn lemma_shape_ignores_member_order(
    a: Seq<(String, JsonValue)>,
    b: Seq<(String, JsonValue)>,
    canonical_path: Seq<char>,
    site_path: Option<Seq<char>>,
    schema_path: Seq<char>,
)
    requires
        type_pairs_of(a).to_multiset() == type_pairs_of(b).to_multiset(),
    ensures
        field_set_json_text(a) == field_set_json_text(b),
        type_set_json_text(a) == type_set_json_text(b),
        hash_text(type_set_json_text(a)) == hash_text(type_set_json_text(b)),
        shape_input(canonical_path, site_path, schema_path, a) == shape_input(canonical_path, site_path, schema_path, b),
{
    let first = |pair: (Seq<char>, Seq<char>)| pair.0;
    lemma_map_values_to_multiset(type_pairs_of(a), type_pairs_of(b), first);
    assert(field_names_of(a) =~= type_pairs_of(a).map_values(first));
    assert(field_names_of(b) =~= type_pairs_of(b).map_values(first));
    lemma_field_set_ignores_member_order(a, b);
    lemma_text_pair_le_order();
    assert(antisymmetric_on(type_pairs_of(a), text_pair_le()));
    lemma_insertion_sorted_permutation(type_pairs_of(a), type_pairs_of(b), text_pair_le());
}

} // verus!
