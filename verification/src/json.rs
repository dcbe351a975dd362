//! JSON documents as plain values, and the mathematical values they stand for.
use vstd::prelude::*;

verus! {

/// A number of a JSON document, kept as `serde_json` read it. Only the unsigned
/// integers are looked into; see [`Json::Unsigned`].
#[verifier::external_type_specification]
#[verifier::external_body]
pub struct ExNumber(serde_json::Number);

/// The `u64` that a number is; `None` of another number.
pub uninterp spec fn number_u64(number: serde_json::Number) -> Option<u64>;

/// A JSON document.
#[derive(Debug)]
pub enum Json {
    Null,
    Bool(bool),
    /// A number that is a `u64`.
    Unsigned(u64),
    /// Any number.
    Number(serde_json::Number),
    Text(String),
    List(Vec<Json>),
    Object(JsonObject),
}

/// The members of a JSON object.
///
/// Of several entries under one name, the last is the member's value.
#[derive(Debug)]
pub struct JsonObject {
    entries: Vec<(String, Json)>,
}

/// The members of a JSON object, by name.
pub type Members = Map<Seq<char>, JsonView>;

/// The members of an object without members.
pub open spec fn no_members() -> Members {
    Map::empty()
}

/// What a [`Json`] stands for. Objects have no order.
pub enum JsonView {
    Null,
    Bool(bool),
    Unsigned(u64),
    Number(serde_json::Number),
    Text(Seq<char>),
    List(Seq<JsonView>),
    Object(Map<Seq<char>, JsonView>),
}

impl View for Json {
    type V = JsonView;

    open spec fn view(&self) -> JsonView {
        json_view(*self)
    }
}

impl View for JsonObject {
    type V = Members;

    open spec fn view(&self) -> Members {
        object_view(*self)
    }
}

/// The document that a number is.
pub open spec fn number_view(number: serde_json::Number) -> JsonView {
    match number_u64(number) {
        Some(n) => JsonView::Unsigned(n),
        None => JsonView::Number(number),
    }
}

/// The value of a document.
pub open spec fn json_view(json: Json) -> JsonView
    decreases json,
{
    match json {
        Json::Null => JsonView::Null,
        Json::Bool(b) => JsonView::Bool(b),
        Json::Unsigned(n) => JsonView::Unsigned(n),
        Json::Number(n) => number_view(n),
        Json::Text(s) => JsonView::Text(s@),
        Json::List(items) => JsonView::List(list_view(items@)),
        Json::Object(object) => JsonView::Object(object_view(object)),
    }
}

/// The values of the items of a list, in order.
pub open spec fn list_view(items: Seq<Json>) -> Seq<JsonView>
    decreases items,
{
    if items.len() == 0 {
        Seq::empty()
    } else {
        list_view(items.drop_last()).push(json_view(items.last()))
    }
}

/// The members of an object.
pub closed spec fn object_view(object: JsonObject) -> Members
    decreases object,
{
    entries_view(object.entries@)
}

/// The members that a sequence of entries gives, a later entry over an earlier one.
pub open spec fn entries_view(entries: Seq<(String, Json)>) -> Members
    decreases entries,
{
    if entries.len() == 0 {
        Map::empty()
    } else {
        entries_view(entries.drop_last()).insert(
            entries.last().0@,
            json_view(entries.last().1),
        )
    }
}

/// The members of the object that is member `key` of `json`.
pub open spec fn object_member(json: JsonView, key: Seq<char>) -> Option<Members> {
    match json {
        JsonView::Object(members) => if members.contains_key(key) {
            match members[key] {
                JsonView::Object(inner) => Some(inner),
                _ => None,
            }
        } else {
            None
        },
        _ => None,
    }
}

/// The items of the list that is member `key` of `json`.
pub open spec fn list_member(json: JsonView, key: Seq<char>) -> Option<Seq<JsonView>> {
    match json {
        JsonView::Object(members) => if members.contains_key(key) {
            match members[key] {
                JsonView::List(items) => Some(items),
                _ => None,
            }
        } else {
            None
        },
        _ => None,
    }
}

/// The text that is member `key`.
pub open spec fn text_member(members: Members, key: Seq<char>) -> Option<Seq<char>> {
    if members.contains_key(key) {
        match members[key] {
            JsonView::Text(text) => Some(text),
            _ => None,
        }
    } else {
        None
    }
}

/// A list's value holds the value of each item at the item's place.
pub proof fn lemma_list_view(items: Seq<Json>)
    ensures
        list_view(items).len() == items.len(),
        forall|i: int| 0 <= i < items.len() ==> #[trigger] list_view(items)[i] == json_view(items[i]),
    decreases items.len(),
{
    if items.len() > 0 {
        let rest = items.drop_last();
        lemma_list_view(rest);
        assert forall|i: int| 0 <= i < items.len() implies #[trigger] list_view(items)[i]
            == json_view(items[i]) by {
            if i < rest.len() {
                assert(list_view(rest)[i] == json_view(rest[i]));
            }
        }
    }
}

/// Changing one item changes the list's value at that place alone.
pub proof fn lemma_list_view_update(items: Seq<Json>, i: int, item: Json)
    requires
        0 <= i < items.len(),
    ensures
        list_view(items.update(i, item)) == list_view(items).update(i, json_view(item)),
{
    lemma_list_view(items);
    lemma_list_view(items.update(i, item));
    assert(list_view(items.update(i, item)) =~= list_view(items).update(i, json_view(item)));
}

proof fn lemma_entries_absent(entries: Seq<(String, Json)>, key: Seq<char>)
    requires
        forall|i: int| 0 <= i < entries.len() ==> #[trigger] entries[i].0@ != key,
    ensures
        !entries_view(entries).contains_key(key),
    decreases entries.len(),
{
    if entries.len() > 0 {
        let rest = entries.drop_last();
        assert forall|i: int| 0 <= i < rest.len() implies #[trigger] rest[i].0@ != key by {
            assert(entries[i].0@ != key);
        }
        lemma_entries_absent(rest, key);
        assert(entries[entries.len() - 1].0@ != key);
    }
}

proof fn lemma_entries_last(entries: Seq<(String, Json)>, i: int)
    requires
        0 <= i < entries.len(),
        forall|j: int| i < j < entries.len() ==> #[trigger] entries[j].0@ != entries[i].0@,
    ensures
        entries_view(entries).contains_key(entries[i].0@),
        entries_view(entries)[entries[i].0@] == json_view(entries[i].1),
    decreases entries.len(),
{
    let rest = entries.drop_last();
    if i < rest.len() {
        assert forall|j: int| i < j < rest.len() implies #[trigger] rest[j].0@ != rest[i].0@ by {
            assert(entries[j].0@ != entries[i].0@);
        }
        lemma_entries_last(rest, i);
        assert(entries[entries.len() - 1].0@ != entries[i].0@);
    }
}

proof fn lemma_entries_update(entries: Seq<(String, Json)>, i: int, entry: (String, Json))
    requires
        0 <= i < entries.len(),
        entry.0@ == entries[i].0@,
        forall|j: int| i < j < entries.len() ==> #[trigger] entries[j].0@ != entries[i].0@,
    ensures
        entries_view(entries.update(i, entry)) == entries_view(entries).insert(
            entry.0@,
            json_view(entry.1),
        ),
    decreases entries.len(),
{
    let rest = entries.drop_last();
    let updated = entries.update(i, entry);
    if i < rest.len() {
        assert forall|j: int| i < j < rest.len() implies #[trigger] rest[j].0@ != rest[i].0@ by {
            assert(entries[j].0@ != entries[i].0@);
        }
        lemma_entries_update(rest, i, entry);
        assert(updated.drop_last() =~= rest.update(i, entry));
        assert(entries[entries.len() - 1].0@ != entries[i].0@);
        assert(entries_view(updated) =~= entries_view(entries).insert(
            entry.0@,
            json_view(entry.1),
        ));
    } else {
        assert(updated.drop_last() =~= rest);
        assert(entries_view(updated) =~= entries_view(entries).insert(
            entry.0@,
            json_view(entry.1),
        ));
    }
}

proof fn lemma_entries_remove(entries: Seq<(String, Json)>, i: int)
    requires
        0 <= i < entries.len(),
    ensures
        entries_view(entries.remove(i)).remove(entries[i].0@) == entries_view(entries).remove(
            entries[i].0@,
        ),
    decreases entries.len(),
{
    let key = entries[i].0@;
    let rest = entries.drop_last();
    let fewer = entries.remove(i);
    if i < rest.len() {
        lemma_entries_remove(rest, i);
        assert(fewer.drop_last() =~= rest.remove(i));
        assert(fewer.last() == entries.last());
        assert(entries_view(fewer).remove(key) =~= entries_view(entries).remove(key)) by {
            let k = entries.last().0@;
            let v = json_view(entries.last().1);
            let a = entries_view(rest.remove(i));
            let b = entries_view(rest);
            assert(a.remove(key) == b.remove(key));
            assert forall|x: Seq<char>| a.insert(k, v).remove(key).contains_key(x) ==
                b.insert(k, v).remove(key).contains_key(x) by {
                assert(a.remove(key).contains_key(x) == b.remove(key).contains_key(x));
            }
            assert forall|x: Seq<char>| a.insert(k, v).remove(key).contains_key(x) implies
                a.insert(k, v).remove(key)[x] == b.insert(k, v).remove(key)[x] by {
                assert(a.remove(key).contains_key(x) == b.remove(key).contains_key(x));
                if x != k {
                    assert(a.remove(key)[x] == b.remove(key)[x]);
                }
            }
        }
    } else {
        assert(fewer =~= rest);
        assert(entries_view(fewer).remove(key) =~= entries_view(entries).remove(key));
    }
}

impl JsonObject {
    /// An object without members.
    pub fn new() -> (object: JsonObject)
        ensures
            object@ == no_members(),
    {
        JsonObject { entries: Vec::new() }
    }

    /// The object whose members are given by `entries`.
    pub fn from_entries(entries: Vec<(String, Json)>) -> (object: JsonObject)
        ensures
            object@ == entries_view(entries@),
    {
        JsonObject { entries }
    }

    /// The entries that the object holds.
    pub closed spec fn spec_entries(self) -> Seq<(String, Json)> {
        self.entries@
    }

    /// The entries of the object.
    pub fn into_entries(self) -> (entries: Vec<(String, Json)>)
        ensures
            entries@ == self.spec_entries(),
            self@ == entries_view(entries@),
    {
        self.entries
    }

    /// An object is made of smaller documents.
    pub proof fn lemma_entries_smaller(self, i: int)
        requires
            0 <= i < self.spec_entries().len(),
        ensures
            decreases_to!(self => self.spec_entries()[i].1),
    {
        let entries = self.entries@;
        assert(decreases_to!(self => self.entries));
        assert(decreases_to!(self.entries => entries));
        assert(decreases_to!(entries => entries[i]));
        assert(decreases_to!(entries[i] => entries[i].1));
    }

    /// The place of the entry that counts for `key`.
    fn position(&self, key: &str) -> (found: Option<usize>)
        ensures
            match found {
                Some(i) => {
                    &&& i < self.entries@.len()
                    &&& self.entries@[i as int].0@ == key@
                    &&& forall|j: int|
                        i < j < self.entries@.len() ==> #[trigger] self.entries@[j].0@ != key@
                },
                None => forall|j: int|
                    0 <= j < self.entries@.len() ==> #[trigger] self.entries@[j].0@ != key@,
            },
    {
        let wanted = key.to_string();
        let mut i: usize = self.entries.len();
        while i > 0
            invariant
                wanted@ == key@,
                i <= self.entries@.len(),
                forall|j: int| i <= j < self.entries@.len() ==> #[trigger] self.entries@[j].0@ != key@,
            decreases i,
        {
            i -= 1;
            if self.entries[i].0 == wanted {
                return Some(i);
            }
        }
        None
    }

    /// The member named `key`.
    pub fn get(&self, key: &str) -> (member: Option<&Json>)
        ensures
            match member {
                Some(json) => self@.contains_key(key@) && json@ == self@[key@],
                None => !self@.contains_key(key@),
            },
    {
        match self.position(key) {
            Some(i) => {
                proof {
                    lemma_entries_last(self.entries@, i as int);
                }
                Some(&self.entries[i].1)
            },
            None => {
                proof {
                    lemma_entries_absent(self.entries@, key@);
                }
                None
            },
        }
    }

    /// The value of entry `i`, for changing it in place.
    fn value_mut(&mut self, i: usize) -> (json: &mut Json)
        requires
            i < old(self).entries@.len(),
        ensures
            *json == old(self).entries@[i as int].1,
            final(self).entries@ == old(self).entries@.update(
                i as int,
                (old(self).entries@[i as int].0, *final(json)),
            ),
    {
        &mut self.entries[i].1
    }

    /// The text that is the member named `key`.
    pub fn get_text(&self, key: &str) -> (text: Option<String>)
        ensures
            match text {
                Some(text) => text_member(self@, key@) == Some(text@),
                None => text_member(self@, key@) is None,
            },
    {
        match self.get(key) {
            Some(Json::Text(text)) => Some(text.clone()),
            _ => None,
        }
    }

    /// The member named `key`, for changing it in place.
    pub fn get_mut(&mut self, key: &str) -> (member: Option<&mut Json>)
        ensures
            match member {
                Some(json) => {
                    &&& old(self)@.contains_key(key@)
                    &&& json@ == old(self)@[key@]
                    &&& final(self)@ == old(self)@.insert(key@, final(json)@)
                },
                None => !old(self)@.contains_key(key@) && final(self)@ == old(self)@,
            },
    {
        match self.position(key) {
            Some(i) => {
                let ghost before = self.entries@;
                proof {
                    lemma_entries_last(before, i as int);
                }
                let json = self.value_mut(i);
                proof {
                    lemma_entries_update(before, i as int, (before[i as int].0, *final(json)));
                }
                Some(json)
            },
            None => {
                proof {
                    lemma_entries_absent(self.entries@, key@);
                }
                None
            },
        }
    }

    /// The object that is the member named `key`, for changing it in place.
    pub fn object_mut(&mut self, key: &str) -> (member: Option<&mut JsonObject>)
        ensures
            match member {
                Some(object) => {
                    &&& old(self)@.contains_key(key@)
                    &&& old(self)@[key@] == JsonView::Object(object@)
                    &&& final(self)@ == old(self)@.insert(key@, JsonView::Object(final(object)@))
                },
                None => {
                    &&& old(self)@.contains_key(key@) ==> old(self)@[key@] !is Object
                    &&& final(self)@ == old(self)@
                },
            },
    {
        let ghost before = self@;
        match self.get_mut(key) {
            Some(Json::Object(object)) => Some(object),
            _ => {
                assert(before.contains_key(key@) ==> before.insert(key@, before[key@]) =~= before);
                None
            },
        }
    }

    /// The list that is the member named `key`, for changing it in place.
    pub fn list_mut(&mut self, key: &str) -> (member: Option<&mut Vec<Json>>)
        ensures
            match member {
                Some(items) => {
                    &&& old(self)@.contains_key(key@)
                    &&& old(self)@[key@] == JsonView::List(list_view(items@))
                    &&& final(self)@ == old(self)@.insert(
                        key@,
                        JsonView::List(list_view(final(items)@)),
                    )
                },
                None => {
                    &&& old(self)@.contains_key(key@) ==> old(self)@[key@] !is List
                    &&& final(self)@ == old(self)@
                },
            },
    {
        let ghost before = self@;
        match self.get_mut(key) {
            Some(Json::List(items)) => Some(items),
            _ => {
                assert(before.contains_key(key@) ==> before.insert(key@, before[key@]) =~= before);
                None
            },
        }
    }

    /// Sets the member named `key`.
    pub fn insert(&mut self, key: &str, value: Json)
        ensures
            final(self)@ == old(self)@.insert(key@, value@),
    {
        let name = key.to_string();
        match self.position(key) {
            Some(i) => {
                proof {
                    lemma_entries_update(self.entries@, i as int, (name, value));
                }
                self.entries[i] = (name, value);
            },
            None => {
                let ghost before = self.entries@;
                self.entries.push((name, value));
                assert(self.entries@.drop_last() =~= before);
            },
        }
    }

    /// Removes the member named `key`, if there is one.
    pub fn remove(&mut self, key: &str)
        ensures
            final(self)@ == old(self)@.remove(key@),
    {
        let wanted = key.to_string();
        let mut i: usize = 0;
        while i < self.entries.len()
            invariant
                wanted@ == key@,
                i <= self.entries@.len(),
                forall|j: int| 0 <= j < i ==> #[trigger] self.entries@[j].0@ != key@,
                entries_view(self.entries@).remove(key@) == entries_view(old(self).entries@).remove(key@),
            decreases self.entries@.len() - i,
        {
            if self.entries[i].0 == wanted {
                proof {
                    lemma_entries_remove(self.entries@, i as int);
                }
                let _ = self.entries.remove(i);
            } else {
                i += 1;
            }
        }
        proof {
            lemma_entries_absent(self.entries@, key@);
            assert(entries_view(self.entries@) =~= entries_view(self.entries@).remove(key@));
        }
    }
}

} // verus!
