//! Reading and writing documents as bytes, by `serde_json`.
use crate::json::{lemma_list_view, Json, JsonObject};
use serde_json::Value;
use vstd::prelude::*;
#[allow(unused_imports)]
use crate::json::{
    entries_view, json_view, list_view, no_members, number_u64, number_view, JsonView, Members,
};

verus! {

/// A document as `serde_json` holds it.
#[verifier::external_type_specification]
#[verifier::external_body]
pub struct ExValue(Value);

/// An object as `serde_json` holds it.
#[verifier::external_type_specification]
#[verifier::external_body]
#[verifier::reject_recursive_types(K)]
#[verifier::reject_recursive_types(V)]
pub struct ExMap<K, V>(serde_json::Map<K, V>);

/// Why bytes are no document.
#[verifier::external_type_specification]
#[verifier::external_body]
pub struct ExError(serde_json::Error);

/// The document that a `serde_json::Value` holds.
pub uninterp spec fn value_view(value: Value) -> JsonView;

/// The members that a `serde_json::Map` holds.
pub uninterp spec fn map_view(map: serde_json::Map<String, Value>) -> Members;

/// The document that bytes write, or the message that says why they write none.
pub uninterp spec fn parsed(bytes: Seq<u8>) -> Result<JsonView, Seq<char>>;

/// The bytes that write a document.
pub uninterp spec fn json_bytes(json: JsonView) -> Seq<u8>;

/// The message of an error.
pub uninterp spec fn error_text(error: serde_json::Error) -> Seq<char>;

/// The documents that a sequence of values holds.
pub open spec fn values_view(values: Seq<Value>) -> Seq<JsonView> {
    Seq::new(values.len(), |i: int| value_view(values[i]))
}

/// The members that a sequence of pairs gives, a later pair over an earlier one.
pub open spec fn pairs_view(pairs: Seq<(String, Value)>) -> Members
    decreases pairs.len(),
{
    if pairs.len() == 0 {
        Map::empty()
    } else {
        pairs_view(pairs.drop_last()).insert(pairs.last().0@, value_view(pairs.last().1))
    }
}

/// The outermost layer of a `serde_json::Value`.
pub enum Node {
    Null,
    Bool(bool),
    Number(serde_json::Number),
    Text(String),
    List(Vec<Value>),
    Object(serde_json::Map<String, Value>),
}

/// The document whose outermost layer is given.
pub open spec fn node_view(node: Node) -> JsonView {
    match node {
        Node::Null => JsonView::Null,
        Node::Bool(b) => JsonView::Bool(b),
        Node::Number(n) => number_view(n),
        Node::Text(s) => JsonView::Text(s@),
        Node::List(values) => JsonView::List(values_view(values@)),
        Node::Object(map) => JsonView::Object(map_view(map)),
    }
}

/// Takes a `serde_json::Value` apart by its variants.
#[verifier::external_body]
fn open_value(value: Value) -> (node: Node)
    ensures
        value_view(value) == node_view(node),
{
    match value {
        Value::Null => Node::Null,
        Value::Bool(b) => Node::Bool(b),
        Value::Number(n) => Node::Number(n),
        Value::String(s) => Node::Text(s),
        Value::Array(values) => Node::List(values),
        Value::Object(map) => Node::Object(map),
    }
}

/// Puts a `serde_json::Value` together by its variants.
#[verifier::external_body]
fn close_value(node: Node) -> (value: Value)
    ensures
        value_view(value) == node_view(node),
{
    match node {
        Node::Null => Value::Null,
        Node::Bool(b) => Value::Bool(b),
        Node::Number(n) => Value::Number(n),
        Node::Text(s) => Value::String(s),
        Node::List(values) => Value::Array(values),
        Node::Object(map) => Value::Object(map),
    }
}

/// `serde_json::Map::into_iter`: hands out every member of the map, each name once.
#[verifier::external_body]
fn map_pairs(map: serde_json::Map<String, Value>) -> (pairs: Vec<(String, Value)>)
    ensures
        map_view(map) == pairs_view(pairs@),
        forall|i: int, j: int|
            0 <= i < j < pairs@.len() ==> (#[trigger] pairs@[i]).0@ != (#[trigger] pairs@[j]).0@,
{
    map.into_iter().collect()
}

/// `serde_json::Map::new`: a map without members.
#[verifier::external_body]
fn map_new() -> (made: serde_json::Map<String, Value>)
    ensures
        map_view(made) == no_members(),
{
    serde_json::Map::new()
}

/// `serde_json::Map::insert`: sets one member of the map and leaves the others.
#[verifier::external_body]
fn map_insert(map: &mut serde_json::Map<String, Value>, key: String, value: Value)
    ensures
        map_view(*final(map)) == map_view(*old(map)).insert(key@, value_view(value)),
{
    map.insert(key, value);
}

/// `serde_json::Number::as_u64`: the number as a `u64`, where it is one.
#[verifier::external_body]
fn number_as_u64(number: &serde_json::Number) -> (n: Option<u64>)
    ensures
        n == number_u64(*number),
{
    number.as_u64()
}

/// `serde_json::Number::from`, of a `u64`: the number that is this `u64`.
#[verifier::external_body]
fn number_from_u64(n: u64) -> (number: serde_json::Number)
    ensures
        number_u64(number) == Some(n),
{
    serde_json::Number::from(n)
}

/// `serde_json::from_slice`, of a document: what the bytes write, or why they write nothing.
/// Nothing is said of which bytes write which document.
#[verifier::external_body]
fn value_from_slice(bytes: &[u8]) -> (value: Result<Value, serde_json::Error>)
    ensures
        match value {
            Ok(value) => parsed(bytes@) is Ok && parsed(bytes@)->Ok_0 == value_view(value),
            Err(error) => parsed(bytes@) is Err && parsed(bytes@)->Err_0 == error_text(error),
        },
{
    serde_json::from_slice(bytes)
}

/// `serde_json::to_vec`, of a document: the bytes that write it. Writing a document does not
/// fail. Nothing is said of which bytes write which document.
#[verifier::external_body]
fn value_to_vec(value: &Value) -> (bytes: Result<Vec<u8>, serde_json::Error>)
    ensures
        bytes is Ok,
        bytes->Ok_0@ == json_bytes(value_view(*value)),
{
    serde_json::to_vec(value)
}

/// The message that `serde_json::Error` displays.
#[verifier::external_body]
fn error_message(error: &serde_json::Error) -> (text: String)
    ensures
        text@ == error_text(*error),
{
    error.to_string()
}

proof fn lemma_pairs(pairs: Seq<(String, Value)>, i: int)
    requires
        0 <= i < pairs.len(),
        forall|a: int, b: int|
            0 <= a < b < pairs.len() ==> (#[trigger] pairs[a]).0@ != (#[trigger] pairs[b]).0@,
    ensures
        pairs_view(pairs).dom().finite(),
        pairs_view(pairs).contains_key(pairs[i].0@),
        pairs_view(pairs)[pairs[i].0@] == value_view(pairs[i].1),
    decreases pairs.len(),
{
    let rest = pairs.drop_last();
    if rest.len() > 0 {
        assert forall|a: int, b: int| 0 <= a < b < rest.len() implies (#[trigger] rest[a]).0@ != (
        #[trigger] rest[b]).0@ by {
            assert(pairs[a].0@ != pairs[b].0@);
        }
        if i < rest.len() {
            lemma_pairs(rest, i);
            assert(pairs[i].0@ != pairs[pairs.len() - 1].0@);
        } else {
            lemma_pairs(rest, 0);
        }
    } else {
        assert(rest =~= Seq::empty());
        assert(pairs_view(rest).dom() =~= Set::empty());
    }
    assert(pairs_view(pairs).dom() =~= pairs_view(rest).dom().insert(pairs.last().0@));
}

/// Turns what `serde_json` holds into a document.
pub fn from_value(value: Value) -> (json: Json)
    ensures
        json@ == value_view(value),
    decreases value_view(value),
{
    match open_value(value) {
        Node::Null => Json::Null,
        Node::Bool(b) => Json::Bool(b),
        Node::Number(number) => match number_as_u64(&number) {
            Some(n) => Json::Unsigned(n),
            None => Json::Number(number),
        },
        Node::Text(text) => Json::Text(text),
        Node::List(values) => {
            let ghost all = values@;
            let mut items: Vec<Json> = Vec::new();
            for item in it: values.into_iter()
                invariant
                    it.seq() == all,
                    list_view(items@) == values_view(all).take(it.index() as int),
                    value_view(value) == JsonView::List(values_view(all)),
            {
                let ghost before = items@;
                proof {
                    let views = value_view(value)->List_0;
                    assert(decreases_to!(value_view(value) => value_view(value)->List_0));
                    assert(decreases_to!(views => views[it.index() as int]));
                }
                items.push(from_value(item));
                assert(items@.drop_last() =~= before);
                assert(list_view(items@) =~= values_view(all).take(it.index() + 1));
            }
            assert(values_view(all).take(all.len() as int) =~= values_view(all));
            Json::List(items)
        },
        Node::Object(map) => {
            let pairs = map_pairs(map);
            let ghost all = pairs@;
            let mut entries: Vec<(String, Json)> = Vec::new();
            assert(all.take(0) =~= Seq::empty());
            for pair in it: pairs.into_iter()
                invariant
                    it.seq() == all,
                    entries_view(entries@) == pairs_view(all.take(it.index() as int)),
                    value_view(value) == JsonView::Object(pairs_view(all)),
                    forall|i: int, j: int|
                        0 <= i < j < all.len() ==> (#[trigger] all[i]).0@ != (#[trigger] all[j]).0@,
            {
                let ghost before = entries@;
                let ghost i = it.index() as int;
                proof {
                    lemma_pairs(all, i);
                    let members = value_view(value)->Object_0;
                    assert(decreases_to!(value_view(value) => value_view(value)->Object_0));
                    assert(decreases_to!(members => members[pair.0@]));
                }
                entries.push((pair.0, from_value(pair.1)));
                proof {
                    assert(entries@.drop_last() =~= before);
                    assert(all.take(i + 1).drop_last() =~= all.take(i));
                }
            }
            assert(all.take(all.len() as int) =~= all);
            Json::Object(JsonObject::from_entries(entries))
        },
    }
}

/// Turns a document into what `serde_json` holds.
pub fn to_value(json: Json) -> (value: Value)
    ensures
        value_view(value) == json@,
    decreases json,
{
    match json {
        Json::Null => close_value(Node::Null),
        Json::Bool(b) => close_value(Node::Bool(b)),
        Json::Unsigned(n) => close_value(Node::Number(number_from_u64(n))),
        Json::Number(number) => close_value(Node::Number(number)),
        Json::Text(text) => close_value(Node::Text(text)),
        Json::List(items) => {
            let ghost all = items@;
            let mut values: Vec<Value> = Vec::new();
            proof {
                lemma_list_view(all);
            }
            for item in it: items.into_iter()
                invariant
                    it.seq() == all,
                    json == Json::List(items),
                    all == items@,
                    list_view(all).len() == all.len(),
                    forall|i: int|
                        0 <= i < all.len() ==> #[trigger] list_view(all)[i] == json_view(all[i]),
                    values_view(values@) == list_view(all).take(it.index() as int),
            {
                proof {
                    assert(decreases_to!(json => json->List_0));
                    assert(decreases_to!(items => items@));
                    assert(decreases_to!(all => all[it.index() as int]));
                    assert(list_view(all)[it.index() as int] == json_view(item));
                }
                let ghost before = values_view(values@);
                values.push(to_value(item));
                assert(values_view(values@) =~= before.push(json_view(item)));
                assert(values_view(values@) =~= list_view(all).take(it.index() + 1));
            }
            assert(list_view(all).take(all.len() as int) =~= list_view(all));
            close_value(Node::List(values))
        },
        Json::Object(object) => {
            let entries = object.into_entries();
            let ghost all = entries@;
            let mut map = map_new();
            assert(all.take(0) =~= Seq::empty());
            for entry in it: entries.into_iter()
                invariant
                    it.seq() == all,
                    json == Json::Object(object),
                    all == object.spec_entries(),
                    map_view(map) == entries_view(all.take(it.index() as int)),
            {
                let ghost i = it.index() as int;
                proof {
                    object.lemma_entries_smaller(i);
                    assert(decreases_to!(json => json->Object_0));
                }
                map_insert(&mut map, entry.0, to_value(entry.1));
                assert(all.take(i + 1).drop_last() =~= all.take(i));
            }
            assert(all.take(all.len() as int) =~= all);
            close_value(Node::Object(map))
        },
    }
}

/// Reads a document, or says why the bytes write none.
pub fn read_json(bytes: &[u8]) -> (json: Result<Json, String>)
    ensures
        match json {
            Ok(json) => parsed(bytes@) is Ok && parsed(bytes@)->Ok_0 == json@,
            Err(error) => parsed(bytes@) is Err && parsed(bytes@)->Err_0 == error@,
        },
{
    match value_from_slice(bytes) {
        Ok(value) => Ok(from_value(value)),
        Err(error) => Err(error_message(&error)),
    }
}

/// Writes a document.
pub fn write_json(json: Json) -> (bytes: Vec<u8>)
    ensures
        bytes@ == json_bytes(json@),
{
    let value = to_value(json);
    match value_to_vec(&value) {
        Ok(bytes) => bytes,
        Err(_) => Vec::new(),
    }
}

} // verus!
