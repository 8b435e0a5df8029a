//! JSON documents: reading them, and finding things in them.
use vstd::prelude::*;

use crate::text::same_text;

verus! {

/// A document as `serde_json` holds it.
#[verifier::external_type_specification]
#[verifier::external_body]
pub struct ExValue(serde_json::Value);

/// Why `serde_json` could not read a document.
#[verifier::external_type_specification]
#[verifier::external_body]
pub struct ExError(serde_json::Error);

/// A JSON document. Numbers are not told apart.
pub enum Json {
    Null,
    Bool(bool),
    Number,
    Text(String),
    Array(Vec<Json>),
    /// The members by name, each name once.
    Object(Vec<(String, Json)>),
}

/// A JSON document.
pub enum JsonTree {
    Null,
    Bool(bool),
    Number,
    Text(Seq<char>),
    Array(Seq<JsonTree>),
    Object(Seq<(Seq<char>, JsonTree)>),
}

/// The outermost layer of a document that `serde_json` holds.
enum JsonNode<'a> {
    Null,
    Bool(bool),
    Number,
    Text(&'a String),
    Array(&'a Vec<serde_json::Value>),
    Object(Vec<(&'a String, &'a serde_json::Value)>),
}

impl Json {
    /// The document that this is.
    pub open spec fn tree(self) -> JsonTree
        decreases self,
    {
        match self {
            Json::Null => JsonTree::Null,
            Json::Bool(b) => JsonTree::Bool(b),
            Json::Number => JsonTree::Number,
            Json::Text(s) => JsonTree::Text(s@),
            Json::Array(items) => JsonTree::Array(
                Seq::new(
                    items@.len(),
                    |i: int|
                        if 0 <= i < items@.len() {
                            items@[i].tree()
                        } else {
                            JsonTree::Null
                        },
                ),
            ),
            Json::Object(members) => JsonTree::Object(
                Seq::new(
                    members@.len(),
                    |i: int|
                        if 0 <= i < members@.len() {
                            (members@[i].0@, members@[i].1.tree())
                        } else {
                            (Seq::empty(), JsonTree::Null)
                        },
                ),
            ),
        }
    }
}

/// The document that a `serde_json` value is.
pub uninterp spec fn json_tree(value: serde_json::Value) -> JsonTree;

/// What `serde_json::from_slice` reads out of the bytes, if it can. The grammar is not restated
/// here.
pub uninterp spec fn json_parsed(body: Seq<u8>) -> Option<JsonTree>;

/// Calls `serde_json::from_slice`. Whether the bytes are a document, and which, depends on the
/// bytes alone.
#[verifier::external_body]
fn parse_value(body: &[u8]) -> (r: Result<serde_json::Value, serde_json::Error>)
    ensures
        match r {
            Ok(value) => json_parsed(body@) == Some(json_tree(value)),
            Err(_) => json_parsed(body@) is None,
        },
{
    serde_json::from_slice(body)
}

/// The document whose outermost layer is `node`.
spec fn node_tree(node: JsonNode) -> JsonTree {
    match node {
        JsonNode::Null => JsonTree::Null,
        JsonNode::Bool(b) => JsonTree::Bool(b),
        JsonNode::Number => JsonTree::Number,
        JsonNode::Text(s) => JsonTree::Text(s@),
        JsonNode::Array(items) => JsonTree::Array(
            items@.map_values(|item: serde_json::Value| json_tree(item)),
        ),
        JsonNode::Object(members) => JsonTree::Object(
            members@.map_values(
                |member: (&String, &serde_json::Value)| (member.0@, json_tree(*member.1)),
            ),
        ),
    }
}

/// Takes a `serde_json::Value` apart: each variant with what it holds, the members of an object
/// in the order of its map.
#[verifier::external_body]
fn open_value<'a>(value: &'a serde_json::Value) -> (r: JsonNode<'a>)
    ensures
        node_tree(r) == json_tree(*value),
{
    match value {
        serde_json::Value::Null => JsonNode::Null,
        serde_json::Value::Bool(b) => JsonNode::Bool(*b),
        serde_json::Value::Number(_) => JsonNode::Number,
        serde_json::Value::String(s) => JsonNode::Text(s),
        serde_json::Value::Array(items) => JsonNode::Array(items),
        serde_json::Value::Object(members) => JsonNode::Object(members.iter().collect()),
    }
}

/// The document that a `serde_json` value is.
fn read_value(value: &serde_json::Value) -> (r: Json)
    ensures
        r.tree() == json_tree(*value),
    decreases json_tree(*value),
{
    let node = open_value(value);
    let ghost tree = json_tree(*value);
    match node {
        JsonNode::Null => Json::Null,
        JsonNode::Bool(b) => Json::Bool(b),
        JsonNode::Number => Json::Number,
        JsonNode::Text(s) => Json::Text(s.clone()),
        JsonNode::Array(items) => {
            let n: usize = items.len();
            let mut out: Vec<Json> = Vec::new();
            for i in 0..n
                invariant
                    n == items@.len(),
                    tree == json_tree(*value),
                    tree == JsonTree::Array(
                        items@.map_values(|item: serde_json::Value| json_tree(item)),
                    ),
                    out@.len() == i,
                    forall|k: int| 0 <= k < i ==> (#[trigger] out@[k]).tree() == json_tree(items@[k]),
            {
                assert(decreases_to!(tree => tree->Array_0[i as int]));
                let item = read_value(&items[i]);
                out.push(item);
            }
            let r = Json::Array(out);
            assert(r.tree()->Array_0 =~= tree->Array_0);
            r
        },
        JsonNode::Object(members) => {
            let n: usize = members.len();
            let mut out: Vec<(String, Json)> = Vec::new();
            for i in 0..n
                invariant
                    n == members@.len(),
                    tree == json_tree(*value),
                    tree == JsonTree::Object(
                        members@.map_values(
                            |member: (&String, &serde_json::Value)|
                                (member.0@, json_tree(*member.1)),
                        ),
                    ),
                    out@.len() == i,
                    forall|k: int|
                        0 <= k < i ==> (#[trigger] out@[k]).0@ == members@[k].0@ && out@[k].1.tree()
                            == json_tree(*members@[k].1),
            {
                assert(decreases_to!(tree => tree->Object_0[i as int]));
                assert(decreases_to!(tree->Object_0[i as int] => tree->Object_0[i as int].1));
                let member = read_value(members[i].1);
                out.push((members[i].0.clone(), member));
            }
            let r = Json::Object(out);
            assert(r.tree()->Object_0 =~= tree->Object_0);
            r
        },
    }
}

/// Reads a JSON document, if the bytes are one.
pub fn parse_json(body: &[u8]) -> (r: Option<Json>)
    ensures
        match r {
            Some(json) => json_parsed(body@) == Some(json.tree()),
            None => json_parsed(body@) is None,
        },
{
    match parse_value(body) {
        Ok(value) => Some(read_value(&value)),
        Err(_) => None,
    }
}

/// Whether `at` is the first member of that name.
pub open spec fn first_member(
    members: Seq<(Seq<char>, JsonTree)>,
    name: Seq<char>,
    at: int,
) -> bool {
    &&& 0 <= at < members.len()
    &&& members[at].0 == name
    &&& forall|i: int| 0 <= i < at ==> (#[trigger] members[i]).0 != name
}

/// The member of that name. What is no object has none.
pub open spec fn member_of(tree: JsonTree, name: Seq<char>) -> Option<JsonTree> {
    match tree {
        JsonTree::Object(members) => if exists|at: int| first_member(members, name, at) {
            Some(members[choose|at: int| first_member(members, name, at)].1)
        } else {
            None
        },
        _ => None,
    }
}

/// The first item. What is no array, or an empty one, has none.
pub open spec fn first_item_of(tree: JsonTree) -> Option<JsonTree> {
    match tree {
        JsonTree::Array(items) => if items.len() > 0 {
            Some(items[0])
        } else {
            None
        },
        _ => None,
    }
}

/// The text that a document is, where it is one.
pub open spec fn text_in(tree: JsonTree) -> Option<Seq<char>> {
    match tree {
        JsonTree::Text(s) => Some(s),
        _ => None,
    }
}

/// The text of the member of that name, where it is one.
pub open spec fn member_text_of(tree: JsonTree, name: Seq<char>) -> Option<Seq<char>> {
    match member_of(tree, name) {
        Some(member) => text_in(member),
        None => None,
    }
}

/// The document of a reference that may be absent.
pub open spec fn tree_view(json: Option<&Json>) -> Option<JsonTree> {
    match json {
        Some(json) => Some(json.tree()),
        None => None,
    }
}

/// The member of that name.
pub fn member<'a>(json: &'a Json, name: &str) -> (r: Option<&'a Json>)
    ensures
        tree_view(r) == member_of(json.tree(), name@),
{
    match json {
        Json::Object(members) => {
            let ghost views = json.tree()->Object_0;
            let n: usize = members.len();
            for i in 0..n
                invariant
                    n == members@.len(),
                    *json == Json::Object(*members),
                    views == json.tree()->Object_0,
                    forall|k: int| 0 <= k < i ==> (#[trigger] views[k]).0 != name@,
            {
                assert(views[i as int] == (members@[i as int].0@, members@[i as int].1.tree()));
                if same_text(members[i].0.as_str(), name) {
                    proof {
                        assert(first_member(views, name@, i as int));
                        let found = choose|at: int| first_member(views, name@, at);
                        assert(found == i);
                    }
                    return Some(&members[i].1);
                }
            }
            None
        },
        _ => None,
    }
}

/// The first item.
pub fn first_item<'a>(json: &'a Json) -> (r: Option<&'a Json>)
    ensures
        tree_view(r) == first_item_of(json.tree()),
{
    match json {
        Json::Array(items) => if items.len() > 0 {
            Some(&items[0])
        } else {
            None
        },
        _ => None,
    }
}

/// The text of the member of that name, where it is one.
pub fn member_text(json: &Json, name: &str) -> (r: Option<String>)
    ensures
        match r {
            Some(text) => member_text_of(json.tree(), name@) == Some(text@),
            None => member_text_of(json.tree(), name@) is None,
        },
{
    match member(json, name) {
        Some(Json::Text(text)) => Some(text.clone()),
        _ => None,
    }
}

/// The member of a name is found exactly where the object has one, whatever the other members are;
/// in an object each name stands once, so that it is the value of that name.
pub proof fn law_member_is_that_of_the_name(
    members: Seq<(Seq<char>, JsonTree)>,
    name: Seq<char>,
    at: int,
)
    requires
        0 <= at < members.len(),
        members[at].0 == name,
        forall|i: int| 0 <= i < members.len() && i != at ==> (#[trigger] members[i]).0 != name,
    ensures
        member_of(JsonTree::Object(members), name) == Some(members[at].1),
        members[at].1 matches JsonTree::Text(s) ==> member_text_of(
            JsonTree::Object(members),
            name,
        ) == Some(s),
        !(members[at].1 is Text) ==> member_text_of(JsonTree::Object(members), name) is None,
{
    assert(first_member(members, name, at));
    let found = choose|k: int| first_member(members, name, k);
    if found != at {
        assert(members[found].0 != name);
    }
}

/// An object without the name has no such member, and what is no object has none at all.
pub proof fn law_absent_member_is_not_found(tree: JsonTree, name: Seq<char>)
    ensures
        !(tree is Object) ==> member_of(tree, name) is None && member_text_of(tree, name) is None,
        tree matches JsonTree::Object(members) ==> ((forall|i: int|
            0 <= i < members.len() ==> (#[trigger] members[i]).0 != name) ==> member_of(tree, name)
            is None && member_text_of(tree, name) is None),
{
    if let JsonTree::Object(members) = tree {
        if exists|at: int| first_member(members, name, at) {
            let at = choose|at: int| first_member(members, name, at);
            assert(members[at].0 == name);
        }
    }
}

/// The first item of an array is the one at its start, whatever follows; an empty array, and what
/// is no array, has none.
pub proof fn law_first_item_is_at_the_start(item: JsonTree, rest: Seq<JsonTree>, other: JsonTree)
    ensures
        first_item_of(JsonTree::Array(seq![item] + rest)) == Some(item),
        first_item_of(JsonTree::Array(Seq::empty())) is None,
        !(other is Array) ==> first_item_of(other) is None,
{
}

} // verus!
