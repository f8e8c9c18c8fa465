//! JSON values.

use vstd::prelude::*;
use crate::outside::{json_tree, open_value, parse_document, parsed_json, JsonNode};

verus! {

/// What a [`JsonValue`] says.
pub enum JsonView {
    Null,
    Bool(bool),
    Number,
    Str(Seq<char>),
    Array(Seq<JsonView>),
    /// The keys of an object and, in the same order, their values.
    Object(Seq<Seq<char>>, Seq<JsonView>),
}

/// A JSON value. Which number a number is does not matter here.
#[derive(Debug)]
pub enum JsonValue {
    Null,
    Bool(bool),
    Number,
    Str(String),
    Array(Vec<JsonValue>),
    Object(Vec<(String, JsonValue)>),
}

impl View for JsonValue {
    type V = JsonView;

    open spec fn view(&self) -> JsonView
        decreases self,
    {
        match self {
            JsonValue::Null => JsonView::Null,
            JsonValue::Bool(b) => JsonView::Bool(*b),
            JsonValue::Number => JsonView::Number,
            JsonValue::Str(s) => JsonView::Str(s@),
            JsonValue::Array(items) => JsonView::Array(
                Seq::new(
                    items@.len(),
                    |i: int|
                        if 0 <= i < items@.len() {
                            items@[i].view()
                        } else {
                            JsonView::Null
                        },
                ),
            ),
            JsonValue::Object(entries) => JsonView::Object(
                keys(entries@),
                Seq::new(
                    entries@.len(),
                    |i: int|
                        if 0 <= i < entries@.len() {
                            entries@[i].1.view()
                        } else {
                            JsonView::Null
                        },
                ),
            ),
        }
    }
}

/// The keys of the entries of an object.
pub open spec fn keys(v: Seq<(String, JsonValue)>) -> Seq<Seq<char>> {
    v.map_values(|e: (String, JsonValue)| e.0@)
}

/// The value under the first of `keys` that is `key`.
pub open spec fn member(
    keys: Seq<Seq<char>>,
    values: Seq<JsonView>,
    key: Seq<char>,
) -> Option<JsonView>
    decreases keys.len(),
{
    if keys.len() == 0 {
        None
    } else if keys[0] == key {
        Some(values[0])
    } else {
        member(keys.drop_first(), values.drop_first(), key)
    }
}

impl JsonView {
    /// The member `key` of an object; nothing of any other value.
    pub open spec fn get(self, key: Seq<char>) -> Option<JsonView> {
        match self {
            JsonView::Object(keys, values) => member(keys, values, key),
            _ => None,
        }
    }

    /// The member `key`, if it is a string.
    pub open spec fn get_str(self, key: Seq<char>) -> Option<Seq<char>> {
        match self.get(key) {
            Some(JsonView::Str(s)) => Some(s),
            _ => None,
        }
    }

    /// The member `key`, if it is a truth value.
    pub open spec fn get_bool(self, key: Seq<char>) -> Option<bool> {
        match self.get(key) {
            Some(JsonView::Bool(b)) => Some(b),
            _ => None,
        }
    }

    /// The member `key`, if it is an array.
    pub open spec fn get_array(self, key: Seq<char>) -> Option<Seq<JsonView>> {
        match self.get(key) {
            Some(JsonView::Array(items)) => Some(items),
            _ => None,
        }
    }
}

/// The members of an object are looked up by their keys, the first of equal
/// ones; no other value has members, and each kind of member is told from the
/// others.
pub proof fn law_members(
    key: Seq<char>,
    value: JsonView,
    names: Seq<Seq<char>>,
    values: Seq<JsonView>,
    wanted: Seq<char>,
)
    ensures
        JsonView::Object(seq![key] + names, seq![value] + values).get(wanted) == (if wanted == key {
            Some(value)
        } else {
            JsonView::Object(names, values).get(wanted)
        }),
        JsonView::Object(Seq::empty(), Seq::empty()).get(wanted) is None,
        !(value is Object) ==> value.get(wanted) is None,
        value.get_str(wanted) == (match value.get(wanted) {
            Some(JsonView::Str(s)) => Some(s),
            _ => None,
        }),
        value.get_bool(wanted) == (match value.get(wanted) {
            Some(JsonView::Bool(b)) => Some(b),
            _ => None,
        }),
        value.get_array(wanted) == (match value.get(wanted) {
            Some(JsonView::Array(items)) => Some(items),
            _ => None,
        }),
{
    assert((seq![key] + names).drop_first() =~= names);
    assert((seq![value] + values).drop_first() =~= values);
}

/// What each value of a list says.
pub open spec fn json_views(v: Seq<JsonValue>) -> Seq<JsonView> {
    v.map_values(|x: JsonValue| x@)
}

/// What each value of an object says.
pub open spec fn value_views(v: Seq<(String, JsonValue)>) -> Seq<JsonView> {
    v.map_values(|e: (String, JsonValue)| e.1@)
}

/// A value says what its children say.
pub proof fn lemma_view(items: Vec<JsonValue>, entries: Vec<(String, JsonValue)>)
    ensures
        JsonValue::Array(items)@ == JsonView::Array(json_views(items@)),
        JsonValue::Object(entries)@ == JsonView::Object(keys(entries@), value_views(entries@)),
{
    let a = JsonValue::Array(items);
    let o = JsonValue::Object(entries);
    assert(a@->Array_0 =~= json_views(items@));
    assert(o@->Object_1 =~= value_views(entries@));
}

impl JsonValue {
    /// The member `key` of an object; nothing of any other value.
    pub fn get(&self, key: &str) -> (r: Option<&JsonValue>)
        ensures
            self@.get(key@) == (match r {
                Some(v) => Some(v@),
                None => None,
            }),
    {
        match self {
            JsonValue::Object(entries) => {
                let ghost names = keys(entries@);
                let ghost values = value_views(entries@);
                let name = key.to_owned();
                let mut i: usize = 0;
                proof {
                    lemma_view(arbitrary(), *entries);
                    assert(names.skip(0) =~= names);
                    assert(values.skip(0) =~= values);
                }
                while i < entries.len()
                    invariant
                        i <= entries@.len(),
                        name@ == key@,
                        names == keys(entries@),
                        values == value_views(entries@),
                        self@ == JsonView::Object(names, values),
                        member(names, values, key@) == member(
                            names.skip(i as int),
                            values.skip(i as int),
                            key@,
                        ),
                    decreases entries.len() - i,
                {
                    assert(names.skip(i as int).drop_first() =~= names.skip(i + 1));
                    assert(values.skip(i as int).drop_first() =~= values.skip(i + 1));
                    if entries[i].0 == name {
                        return Some(&entries[i].1);
                    }
                    i += 1;
                }
                None
            },
            _ => None,
        }
    }

    /// The member `key`, if it is a string.
    pub fn get_str(&self, key: &str) -> (r: Option<&String>)
        ensures
            self@.get_str(key@) == (match r {
                Some(s) => Some(s@),
                None => None,
            }),
    {
        match self.get(key) {
            Some(JsonValue::Str(s)) => Some(s),
            _ => None,
        }
    }

    /// The member `key`, if it is a truth value.
    pub fn get_bool(&self, key: &str) -> (r: Option<bool>)
        ensures
            r == self@.get_bool(key@),
    {
        match self.get(key) {
            Some(JsonValue::Bool(b)) => Some(*b),
            _ => None,
        }
    }

    /// The member `key`, if it is an array.
    pub fn get_array(&self, key: &str) -> (r: Option<&Vec<JsonValue>>)
        ensures
            self@.get_array(key@) == (match r {
                Some(items) => Some(json_views(items@)),
                None => None,
            }),
    {
        match self.get(key) {
            Some(JsonValue::Array(items)) => {
                proof {
                    lemma_view(*items, arbitrary());
                }
                Some(items)
            },
            _ => None,
        }
    }

    /// The tree of a parsed document.
    fn from_document(v: serde_json::Value) -> (r: JsonValue)
        ensures
            r@ == json_tree(v),
        decreases json_tree(v),
    {
        let ghost tree = json_tree(v);
        match open_value(v) {
            JsonNode::Null => JsonValue::Null,
            JsonNode::Bool(b) => JsonValue::Bool(b),
            JsonNode::Number => JsonValue::Number,
            JsonNode::Str(s) => JsonValue::Str(s),
            JsonNode::Array(items) => {
                let ghost all = items@;
                let mut out: Vec<JsonValue> = Vec::new();
                for item in it: items
                    invariant
                        it.seq() == all,
                        tree == json_tree(v),
                        tree matches JsonView::Array(s) && s == all.map_values(
                            |v: serde_json::Value| json_tree(v),
                        ),
                        out@.len() == it.index(),
                        forall|k: int|
                            0 <= k < it.index() ==> (#[trigger] out@[k])@ == json_tree(all[k]),
                {
                    let ghost k = it.index() as int;
                    assert(tree->Array_0[k] == json_tree(item));
                    assert(decreases_to!(tree => tree->Array_0));
                    assert(decreases_to!(tree->Array_0 => tree->Array_0[k]));
                    out.push(Self::from_document(item));
                }
                proof {
                    lemma_view(out, arbitrary());
                    assert(json_views(out@) =~= tree->Array_0);
                }
                JsonValue::Array(out)
            },
            JsonNode::Object(entries) => {
                let ghost all = entries@;
                let mut out: Vec<(String, JsonValue)> = Vec::new();
                for entry in it: entries
                    invariant
                        it.seq() == all,
                        tree == json_tree(v),
                        tree matches JsonView::Object(names, values) && names == all.map_values(
                            |e: (String, serde_json::Value)| e.0@,
                        ) && values == all.map_values(
                            |e: (String, serde_json::Value)| json_tree(e.1),
                        ),
                        out@.len() == it.index(),
                        forall|k: int|
                            0 <= k < it.index() ==> (#[trigger] out@[k]).0@ == all[k].0@
                                && out@[k].1@ == json_tree(all[k].1),
                {
                    let ghost k = it.index() as int;
                    let (key, item) = entry;
                    assert(tree->Object_1[k] == json_tree(item));
                    assert(decreases_to!(tree => tree->Object_1));
                    assert(decreases_to!(tree->Object_1 => tree->Object_1[k]));
                    out.push((key, Self::from_document(item)));
                }
                proof {
                    lemma_view(arbitrary(), out);
                    assert(keys(out@) =~= tree->Object_0);
                    assert(value_views(out@) =~= tree->Object_1);
                }
                JsonValue::Object(out)
            },
        }
    }

    /// Parses a JSON document.
    pub fn parse(text: &str) -> (r: Option<JsonValue>)
        ensures
            parsed_json(text@) == (match r {
                Some(v) => Some(v@),
                None => None,
            }),
    {
        match parse_document(text) {
            Some(v) => Some(Self::from_document(v)),
            None => None,
        }
    }
}

} // verus!
