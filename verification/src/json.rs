//! JSON values, read from text and written to it by `serde_json`.
use crate::table;
use crate::text;
use serde_json::Value;
use vstd::prelude::*;

verus! {

/// What a JSON text denotes: the mathematical counterpart of [`Json`].
#[verifier::ext_equal]
pub enum JsonTree {
    Null,
    Bool(bool),
    Natural(u64),
    Negative(i64),
    Real,
    Text(Seq<char>),
    List(Seq<JsonTree>),
    Object(Map<Seq<char>, JsonTree>),
}

impl JsonTree {
    /// The value under a key of an object.
    pub open spec fn get(self, key: Seq<char>) -> Option<JsonTree> {
        match self {
            JsonTree::Object(fields) => if fields.contains_key(key) {
                Some(fields[key])
            } else {
                None
            },
            _ => None,
        }
    }

    /// The characters of a string.
    pub open spec fn text(self) -> Option<Seq<char>> {
        match self {
            JsonTree::Text(s) => Some(s),
            _ => None,
        }
    }

    /// The characters of the string under a key of an object.
    pub open spec fn text_at(self, key: Seq<char>) -> Option<Seq<char>> {
        match self.get(key) {
            Some(value) => value.text(),
            None => None,
        }
    }

    /// A number that an unsigned 64-bit integer holds.
    pub open spec fn natural(self) -> Option<u64> {
        match self {
            JsonTree::Natural(n) => Some(n),
            _ => None,
        }
    }

    /// A number that a signed 64-bit integer holds.
    pub open spec fn integer(self) -> Option<i64> {
        match self {
            JsonTree::Natural(n) => if n <= i64::MAX {
                Some(n as i64)
            } else {
                None
            },
            JsonTree::Negative(n) => Some(n),
            _ => None,
        }
    }

    /// The items of an array.
    pub open spec fn list(self) -> Option<Seq<JsonTree>> {
        match self {
            JsonTree::List(items) => Some(items),
            _ => None,
        }
    }

    /// The fields of an object.
    pub open spec fn object(self) -> Option<Map<Seq<char>, JsonTree>> {
        match self {
            JsonTree::Object(fields) => Some(fields),
            _ => None,
        }
    }
}

/// A JSON value.
///
/// A number is kept as the integer that it is. One that is no 64-bit integer is a `Real`, of which
/// nothing more is kept. Where a key of an object occurs more than once, the last value counts.
#[derive(Debug)]
pub enum Json {
    Null,
    Bool(bool),
    Natural(u64),
    Negative(i64),
    Real,
    Text(String),
    List(Vec<Json>),
    Object(Vec<(String, Json)>),
}

/// What each value of a list denotes.
pub open spec fn item_trees(items: Seq<Json>) -> Seq<JsonTree>
    decreases items,
{
    Seq::new(
        items.len(),
        |i: int|
            if 0 <= i < items.len() {
                tree(items[i])
            } else {
                arbitrary()
            },
    )
}

/// What each entry of an object denotes.
pub open spec fn entry_trees(entries: Seq<(String, Json)>) -> Seq<(Seq<char>, JsonTree)>
    decreases entries,
{
    Seq::new(
        entries.len(),
        |i: int|
            if 0 <= i < entries.len() {
                (entries[i].0@, tree(entries[i].1))
            } else {
                arbitrary()
            },
    )
}

/// What a value denotes.
pub open spec fn tree(json: Json) -> JsonTree
    decreases json,
{
    match json {
        Json::Null => JsonTree::Null,
        Json::Bool(b) => JsonTree::Bool(b),
        Json::Natural(n) => JsonTree::Natural(n),
        Json::Negative(n) => JsonTree::Negative(n),
        Json::Real => JsonTree::Real,
        Json::Text(s) => JsonTree::Text(s@),
        Json::List(items) => JsonTree::List(item_trees(items@)),
        Json::Object(entries) => JsonTree::Object(table::pairs_map(entry_trees(entries@))),
    }
}

impl View for Json {
    type V = JsonTree;

    open spec fn view(&self) -> JsonTree {
        tree(*self)
    }
}

impl Json {
    /// The value under `key`, where this is an object that has one.
    pub fn get(&self, key: &str) -> (r: Option<&Json>)
        ensures
            match r {
                Some(value) => self@.get(key@) == Some(value@),
                None => self@.get(key@) is None,
            },
    {
        match self {
            Json::Object(entries) => {
                let mut i: usize = entries.len();
                let ghost pairs = entry_trees(entries@);
                while i > 0
                    invariant
                        i <= entries@.len(),
                        pairs == entry_trees(entries@),
                        self@ == JsonTree::Object(table::pairs_map(pairs)),
                        forall|j: int| i <= j < pairs.len() ==> (#[trigger] pairs[j]).0 != key@,
                    decreases i,
                {
                    i = i - 1;
                    if text::same(entries[i].0.as_str(), key) {
                        proof {
                            table::lemma_pairs_map_value(pairs, i as int);
                        }
                        return Some(&entries[i].1);
                    }
                }
                proof {
                    table::lemma_pairs_map_keys(pairs, key@);
                }
                None
            },
            _ => None,
        }
    }

    /// The characters, where this is a string.
    pub fn as_str(&self) -> (r: Option<&str>)
        ensures
            match r {
                Some(s) => self@.text() == Some(s@),
                None => self@.text() is None,
            },
    {
        match self {
            Json::Text(s) => Some(s.as_str()),
            _ => None,
        }
    }

    /// The characters of the string under `key`, where this is an object that has one.
    pub fn str_at(&self, key: &str) -> (r: Option<&str>)
        ensures
            match r {
                Some(s) => self@.text_at(key@) == Some(s@),
                None => self@.text_at(key@) is None,
            },
    {
        match self.get(key) {
            Some(value) => value.as_str(),
            None => None,
        }
    }

    /// The number, where an unsigned 64-bit integer holds it.
    pub fn as_u64(&self) -> (r: Option<u64>)
        ensures
            r == self@.natural(),
    {
        match self {
            Json::Natural(n) => Some(*n),
            _ => None,
        }
    }

    /// The number, where a signed 64-bit integer holds it.
    pub fn as_i64(&self) -> (r: Option<i64>)
        ensures
            r == self@.integer(),
    {
        match self {
            Json::Natural(n) => if *n <= i64::MAX as u64 {
                Some(*n as i64)
            } else {
                None
            },
            Json::Negative(n) => Some(*n),
            _ => None,
        }
    }

    /// The items, where this is an array.
    pub fn as_array(&self) -> (r: Option<&Vec<Json>>)
        ensures
            match r {
                Some(items) => self@.list() == Some(item_trees(items@)),
                None => self@.list() is None,
            },
    {
        match self {
            Json::List(items) => Some(items),
            _ => None,
        }
    }

    /// The entries, where this is an object.
    pub fn as_object(&self) -> (r: Option<&Vec<(String, Json)>>)
        ensures
            match r {
                Some(entries) => self@.object() == Some(
                    table::pairs_map(entry_trees(entries@)),
                ),
                None => self@.object() is None,
            },
    {
        match self {
            Json::Object(entries) => Some(entries),
            _ => None,
        }
    }
}

// ---------------------------------------------------------------------------
// Reading
// ---------------------------------------------------------------------------
/// `serde_json`'s own value type.
#[verifier::external_type_specification]
#[verifier::external_body]
pub struct ExValue(serde_json::Value);

/// What a `serde_json::Value` holds.
pub uninterp spec fn json_of(value: serde_json::Value) -> JsonTree;

/// What `serde_json::from_str` makes of a text: the value that the text denotes, where it is JSON.
pub uninterp spec fn json_text(text: Seq<char>) -> Option<JsonTree>;

/// The top level of a `serde_json::Value`.
enum Node<'a> {
    Null,
    Bool(bool),
    Number(Option<u64>, Option<i64>),
    Text(&'a String),
    List(&'a Vec<Value>),
    Object(Vec<(&'a String, &'a Value)>),
}

/// A number, from what it is as an unsigned and as a signed 64-bit integer.
spec fn number_tree(unsigned: Option<u64>, signed: Option<i64>) -> JsonTree {
    match (unsigned, signed) {
        (Some(n), _) => JsonTree::Natural(n),
        (None, Some(n)) => JsonTree::Negative(n),
        (None, None) => JsonTree::Real,
    }
}

/// What a value with the given top level holds.
spec fn node_tree(node: Node) -> JsonTree {
    match node {
        Node::Null => JsonTree::Null,
        Node::Bool(b) => JsonTree::Bool(b),
        Node::Number(unsigned, signed) => number_tree(unsigned, signed),
        Node::Text(s) => JsonTree::Text(s@),
        Node::List(items) => JsonTree::List(items@.map_values(|v: Value| json_of(v))),
        Node::Object(entries) => JsonTree::Object(
            table::pairs_map(entries@.map_values(|e: (&String, &Value)| (e.0@, json_of(*e.1)))),
        ),
    }
}

/// Tells the variants of `serde_json::Value` apart. A number is what `Number::as_u64` and
/// `Number::as_i64` say of it; an object is the entries of its map, each key once.
#[verifier::external_body]
fn node<'a>(value: &'a Value) -> (r: Node<'a>)
    ensures
        json_of(*value) == node_tree(r),
        r matches Node::Object(entries) ==> table::distinct_keys(
            entries@.map_values(|e: (&String, &Value)| (e.0@, json_of(*e.1))),
        ),
{
    match value {
        Value::Null => Node::Null,
        Value::Bool(b) => Node::Bool(*b),
        Value::Number(n) => Node::Number(n.as_u64(), n.as_i64()),
        Value::String(s) => Node::Text(s),
        Value::Array(items) => Node::List(items),
        Value::Object(fields) => Node::Object(fields.iter().collect()),
    }
}

/// `serde_json::from_str`, into a `Value`. Whether the text is JSON, and what it denotes, has a
/// name: [`json_text`].
#[verifier::external_body]
fn value_from_text(text: &str) -> (r: Option<Value>)
    ensures
        json_text(text@) == (match r {
            Some(value) => Some(json_of(value)),
            None => None,
        }),
{
    serde_json::from_str(text).ok()
}

/// The value that a `serde_json::Value` holds.
fn from_value(value: &Value) -> (r: Json)
    ensures
        r@ == json_of(*value),
    decreases json_of(*value),
{
    match node(value) {
        Node::Null => Json::Null,
        Node::Bool(b) => Json::Bool(b),
        Node::Number(unsigned, signed) => match unsigned {
            Some(n) => Json::Natural(n),
            None => match signed {
                Some(n) => Json::Negative(n),
                None => Json::Real,
            },
        },
        Node::Text(s) => Json::Text(s.clone()),
        Node::List(items) => {
            let ghost trees = items@.map_values(|v: Value| json_of(v));
            let mut r: Vec<Json> = Vec::new();
            let mut i: usize = 0;
            while i < items.len()
                invariant
                    i <= items@.len(),
                    trees == items@.map_values(|v: Value| json_of(v)),
                    json_of(*value) == JsonTree::List(trees),
                    item_trees(r@) == trees.take(i as int),
                decreases items.len() - i,
            {
                let ghost before = r@;
                proof {
                    assert(json_of(items@[i as int]) == trees[i as int]);
                    assert(decreases_to!(json_of(*value) => json_of(*value)->List_0));
                    assert(decreases_to!(trees => trees[i as int]));
                }
                r.push(from_value(&items[i]));
                proof {
                    assert(item_trees(r@) =~= item_trees(before).push(trees[i as int]));
                    assert(trees.take(i + 1) =~= trees.take(i as int).push(trees[i as int]));
                }
                i = i + 1;
            }
            proof {
                assert(trees.take(items@.len() as int) =~= trees);
            }
            Json::List(r)
        },
        Node::Object(entries) => {
            let ghost trees = entries@.map_values(|e: (&String, &Value)| (e.0@, json_of(*e.1)));
            let ghost fields = table::pairs_map(trees);
            let mut r: Vec<(String, Json)> = Vec::new();
            let mut i: usize = 0;
            while i < entries.len()
                invariant
                    i <= entries@.len(),
                    trees == entries@.map_values(|e: (&String, &Value)| (e.0@, json_of(*e.1))),
                    fields == table::pairs_map(trees),
                    table::distinct_keys(trees),
                    json_of(*value) == JsonTree::Object(fields),
                    entry_trees(r@) == trees.take(i as int),
                decreases entries.len() - i,
            {
                let ghost before = r@;
                proof {
                    let key = trees[i as int].0;
                    table::lemma_pairs_map_keys(trees, key);
                    table::lemma_pairs_map_value(trees, i as int);
                    assert(json_of(*entries@[i as int].1) == fields[key]);
                    assert(decreases_to!(json_of(*value) => json_of(*value)->Object_0));
                    assert(decreases_to!(fields => fields[key]));
                }
                r.push((entries[i].0.clone(), from_value(entries[i].1)));
                proof {
                    assert(entry_trees(r@) =~= entry_trees(before).push(trees[i as int]));
                    assert(trees.take(i + 1) =~= trees.take(i as int).push(trees[i as int]));
                }
                i = i + 1;
            }
            proof {
                assert(trees.take(entries@.len() as int) =~= trees);
            }
            Json::Object(r)
        },
    }
}

/// The value that a JSON text denotes, or nothing where the text is not JSON.
pub fn parse_json(text: &str) -> (r: Option<Json>)
    ensures
        match r {
            Some(json) => json_text(text@) == Some(json@),
            None => json_text(text@) is None,
        },
{
    match value_from_text(text) {
        Some(value) => Some(from_value(&value)),
        None => None,
    }
}

// ---------------------------------------------------------------------------
// Writing
// ---------------------------------------------------------------------------
/// No number that is not an integer, and at most `levels` objects and arrays inside each other.
pub open spec fn plain(value: JsonTree, levels: nat) -> bool
    decreases levels,
{
    match value {
        JsonTree::Real => false,
        JsonTree::List(items) => levels > 0 && forall|i: int|
            0 <= i < items.len() ==> plain(#[trigger] items[i], (levels - 1) as nat),
        JsonTree::Object(fields) => levels > 0 && forall|key: Seq<char>|
            fields.contains_key(key) ==> plain(#[trigger] fields[key], (levels - 1) as nat),
        _ => true,
    }
}

/// `Value::String`: a JSON string of the given characters.
#[verifier::external_body]
pub(crate) fn text_value(s: &str) -> (r: Value)
    ensures
        json_of(r) == JsonTree::Text(s@),
{
    Value::String(s.to_owned())
}

/// `Value::from` of an unsigned integer: the JSON number with that value.
#[verifier::external_body]
pub(crate) fn natural_value(n: u64) -> (r: Value)
    ensures
        json_of(r) == JsonTree::Natural(n),
{
    Value::from(n)
}

/// What each entry of an object to be made holds.
pub open spec fn value_trees(entries: Seq<(String, Value)>) -> Seq<(Seq<char>, JsonTree)> {
    entries.map_values(|e: (String, Value)| (e.0@, json_of(e.1)))
}

/// `Value::Object` of a map that is collected from entries with different keys: the object with
/// exactly these entries.
#[verifier::external_body]
pub(crate) fn object_value(entries: Vec<(String, Value)>) -> (r: Value)
    requires
        table::distinct_keys(value_trees(entries@)),
    ensures
        json_of(r) == JsonTree::Object(table::pairs_map(value_trees(entries@))),
{
    Value::Object(entries.into_iter().collect())
}

/// The `Display` text of a `serde_json::Value` that holds the given value.
pub uninterp spec fn json_layout(value: JsonTree) -> Seq<char>;

/// The `Display` text of a `serde_json::Value` that has integers only and is not nested deeper than
/// the reader follows, which is 127 levels: the text depends on what the value holds alone, and
/// reading it gives the value back. How the text is laid out has a name: [`json_layout`].
#[verifier::external_body]
pub(crate) fn value_to_text(value: &Value) -> (r: String)
    requires
        plain(json_of(*value), 127),
    ensures
        r@ == json_layout(json_of(*value)),
        json_text(r@) == Some(json_of(*value)),
{
    value.to_string()
}

} // verus!
