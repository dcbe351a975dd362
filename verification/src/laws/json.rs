//! What holds of documents.
use vstd::prelude::*;
#[allow(unused_imports)]
use crate::codec::{node_view, pairs_view, value_view, values_view, Node};
#[allow(unused_imports)]
use crate::copy::{fresh_view, FreshIds};
#[allow(unused_imports)]
use crate::json::{
    entries_view, json_view, lemma_list_view, list_view, no_members, number_u64, Json, JsonView,
};

verus! {

/// A document stands for what it holds. A number that is a `u64` stands for that `u64`,
/// however it is held.
pub proof fn documents_stand_for_what_they_hold(
    b: bool,
    n: u64,
    number: serde_json::Number,
    text: String,
    items: Vec<Json>,
)
    ensures
        Json::Null@ == JsonView::Null,
        (Json::Bool(b))@ == JsonView::Bool(b),
        (Json::Unsigned(n))@ == JsonView::Unsigned(n),
        (Json::Number(number))@ == match number_u64(number) {
            Some(n) => JsonView::Unsigned(n),
            None => JsonView::Number(number),
        },
        (Json::Text(text))@ == JsonView::Text(text@),
        (Json::List(items))@ is List,
        ((Json::List(items))@->List_0).len() == items@.len(),
        forall|i: int|
            0 <= i < items@.len() ==> #[trigger] ((Json::List(items))@->List_0)[i] == items@[i]@,
{
    lemma_list_view(items@);
    let views = (Json::List(items))@->List_0;
    assert forall|i: int| 0 <= i < items@.len() implies #[trigger] views[i] == items@[i]@ by {
        assert(list_view(items@)[i] == json_view(items@[i]));
    }
}

/// An object stands for its members.
pub proof fn objects_stand_for_their_members(object: crate::json::JsonObject)
    ensures
        (Json::Object(object))@ == JsonView::Object(object@),
        no_members() == Map::<Seq<char>, JsonView>::empty(),
{
}

/// A name that no entry has is the name of no member.
pub proof fn other_names_have_no_member(entries: Seq<(String, Json)>, key: Seq<char>)
    requires
        forall|i: int| 0 <= i < entries.len() ==> (#[trigger] entries[i]).0@ != key,
    ensures
        !entries_view(entries).contains_key(key),
    decreases entries.len(),
{
    if entries.len() > 0 {
        let rest = entries.drop_last();
        assert forall|i: int| 0 <= i < rest.len() implies (#[trigger] rest[i]).0@ != key by {
            assert(entries[i].0@ != key);
        }
        other_names_have_no_member(rest, key);
        assert(entries[entries.len() - 1].0@ != key);
    }
}

/// Of the entries with one name, the last is the member.
pub proof fn last_entry_of_a_name_counts(entries: Seq<(String, Json)>, i: int)
    requires
        0 <= i < entries.len(),
        forall|j: int| i < j < entries.len() ==> (#[trigger] entries[j]).0@ != entries[i].0@,
    ensures
        entries_view(entries).contains_key(entries[i].0@),
        entries_view(entries)[entries[i].0@] == entries[i].1@,
    decreases entries.len(),
{
    let rest = entries.drop_last();
    if i < rest.len() {
        assert forall|j: int| i < j < rest.len() implies (#[trigger] rest[j]).0@ != rest[i].0@ by {
            assert(entries[j].0@ != entries[i].0@);
        }
        last_entry_of_a_name_counts(rest, i);
        assert(entries[entries.len() - 1].0@ != entries[i].0@);
    }
}

/// A `serde_json` document stands for what its outermost layer holds.
pub proof fn layers_stand_for_what_they_hold(node: Node)
    ensures
        match node {
            Node::Null => node_view(node) == JsonView::Null,
            Node::Bool(b) => node_view(node) == JsonView::Bool(b),
            Node::Number(number) => match number_u64(number) {
                Some(n) => node_view(node) == JsonView::Unsigned(n),
                None => node_view(node) == JsonView::Number(number),
            },
            Node::Text(text) => node_view(node) == JsonView::Text(text@),
            Node::List(values) => {
                &&& node_view(node) is List
                &&& (node_view(node)->List_0).len() == values@.len()
                &&& forall|i: int|
                    0 <= i < values@.len() ==> #[trigger] (node_view(node)->List_0)[i]
                        == value_view(values@[i])
            },
            Node::Object(map) => node_view(node) == JsonView::Object(crate::codec::map_view(map)),
        },
{
}

/// The members that pairs of different names give are the pairs.
pub proof fn pairs_are_members(pairs: Seq<(String, serde_json::Value)>, key: Seq<char>)
    requires
        forall|i: int, j: int|
            0 <= i < j < pairs.len() ==> (#[trigger] pairs[i]).0@ != (#[trigger] pairs[j]).0@,
    ensures
        pairs_view(pairs).contains_key(key) <==> exists|i: int|
            0 <= i < pairs.len() && (#[trigger] pairs[i]).0@ == key,
        forall|i: int|
            0 <= i < pairs.len() && (#[trigger] pairs[i]).0@ == key ==> pairs_view(pairs)[key]
                == value_view(pairs[i].1),
    decreases pairs.len(),
{
    if pairs.len() > 0 {
        let rest = pairs.drop_last();
        let n = pairs.len() - 1;
        assert forall|i: int, j: int| 0 <= i < j < rest.len() implies (#[trigger] rest[i]).0@ != (
        #[trigger] rest[j]).0@ by {
            assert(pairs[i].0@ != pairs[j].0@);
        }
        pairs_are_members(rest, key);
        if pairs_view(pairs).contains_key(key) && pairs[n].0@ != key {
            let i = choose|i: int| 0 <= i < rest.len() && (#[trigger] rest[i]).0@ == key;
            assert(pairs[i].0@ == key);
        }
        if exists|i: int| 0 <= i < pairs.len() && (#[trigger] pairs[i]).0@ == key {
            let i = choose|i: int| 0 <= i < pairs.len() && (#[trigger] pairs[i]).0@ == key;
            if i < n {
                assert(rest[i].0@ == key);
            }
        }
        assert forall|i: int| 0 <= i < pairs.len() && (#[trigger] pairs[i]).0@ == key implies
            pairs_view(pairs)[key] == value_view(pairs[i].1) by {
            if i < n {
                assert(rest[i].0@ == key);
                assert(pairs[i].0@ != pairs[n].0@);
            }
        }
    }
}

/// New identifiers stand for their texts, message by message and part by part.
pub proof fn new_ids_stand_for_their_texts(fresh: Seq<FreshIds>, i: int, j: int)
    requires
        0 <= i < fresh.len(),
        0 <= j < fresh[i].parts@.len(),
    ensures
        fresh_view(fresh).len() == fresh.len(),
        fresh_view(fresh)[i].message == fresh[i].message@,
        fresh_view(fresh)[i].parts.len() == fresh[i].parts@.len(),
        fresh_view(fresh)[i].parts[j] == fresh[i].parts@[j]@,
{
}

} // verus!
