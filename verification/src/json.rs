//! JSON values as trees the library can read: parsing and writing go through
//! serde_json, everything between works on the tree.

use vstd::prelude::*;
use crate::text::str_equal;

verus! {

#[verifier::external_type_specification]
#[verifier::external_body]
pub struct ExValue(serde_json::Value);

#[verifier::external_type_specification]
#[verifier::external_body]
pub struct ExNumber(serde_json::Number);

#[verifier::external_type_specification]
#[verifier::external_body]
pub struct ExJsonError(serde_json::Error);

/// A JSON value as a mathematical tree. A number is kept as it was read.
pub enum JsonTree {
    Null,
    Bool(bool),
    Number(serde_json::Number),
    Text(Seq<char>),
    Array(Seq<JsonTree>),
    Object(Seq<(Seq<char>, JsonTree)>),
}

/// A JSON value. The members of an object are kept in order.
pub enum JsonValue {
    Null,
    Bool(bool),
    Number(serde_json::Number),
    Text(String),
    Array(Vec<JsonValue>),
    Object(Vec<(String, JsonValue)>),
}

impl View for JsonValue {
    type V = JsonTree;

    open spec fn view(&self) -> JsonTree {
        tree_of(*self)
    }
}

/// The tree of a value.
pub open spec fn tree_of(value: JsonValue) -> JsonTree
    decreases value,
{
    match value {
        JsonValue::Null => JsonTree::Null,
        JsonValue::Bool(b) => JsonTree::Bool(b),
        JsonValue::Number(n) => JsonTree::Number(n),
        JsonValue::Text(s) => JsonTree::Text(s@),
        JsonValue::Array(items) => JsonTree::Array(item_trees_upto(items@, items@.len())),
        JsonValue::Object(members) => JsonTree::Object(
            member_trees_upto(members@, members@.len()),
        ),
    }
}

/// The trees of the first `n` values of a sequence.
pub open spec fn item_trees_upto(items: Seq<JsonValue>, n: nat) -> Seq<JsonTree>
    decreases items, n,
{
    if n == 0 || n > items.len() {
        Seq::empty()
    } else {
        item_trees_upto(items, (n - 1) as nat).push(tree_of(items[n - 1]))
    }
}

/// The keys and trees of the first `n` members of a sequence.
pub open spec fn member_trees_upto(members: Seq<(String, JsonValue)>, n: nat) -> Seq<
    (Seq<char>, JsonTree),
>
    decreases members, n,
{
    if n == 0 || n > members.len() {
        Seq::empty()
    } else {
        member_trees_upto(members, (n - 1) as nat).push(
            (members[n - 1].0@, tree_of(members[n - 1].1)),
        )
    }
}

/// The trees of a sequence of values.
pub open spec fn item_trees(items: Seq<JsonValue>) -> Seq<JsonTree> {
    Seq::new(items.len(), |i: int| items[i]@)
}

/// The keys and trees of a sequence of members.
pub open spec fn member_trees(members: Seq<(String, JsonValue)>) -> Seq<(Seq<char>, JsonTree)> {
    Seq::new(members.len(), |i: int| (members[i].0@, members[i].1@))
}

proof fn lemma_item_trees_upto(items: Seq<JsonValue>, n: nat)
    requires
        n <= items.len(),
    ensures
        item_trees_upto(items, n).len() == n,
        forall|i: int| 0 <= i < n ==> item_trees_upto(items, n)[i] == items[i]@,
    decreases n,
{
    if n > 0 {
        lemma_item_trees_upto(items, (n - 1) as nat);
    }
}

proof fn lemma_member_trees_upto(members: Seq<(String, JsonValue)>, n: nat)
    requires
        n <= members.len(),
    ensures
        member_trees_upto(members, n).len() == n,
        forall|i: int|
            0 <= i < n ==> member_trees_upto(members, n)[i] == (members[i].0@, members[i].1@),
    decreases n,
{
    if n > 0 {
        lemma_member_trees_upto(members, (n - 1) as nat);
    }
}

/// The view of an array is the array of the views of its items.
pub proof fn lemma_array_view(items: Vec<JsonValue>)
    ensures
        JsonValue::Array(items)@ == JsonTree::Array(item_trees(items@)),
{
    lemma_item_trees_upto(items@, items@.len());
    assert(item_trees_upto(items@, items@.len()) =~= item_trees(items@));
}

/// The view of an object is the object of the views of its members.
pub proof fn lemma_object_view(members: Vec<(String, JsonValue)>)
    ensures
        JsonValue::Object(members)@ == JsonTree::Object(member_trees(members@)),
{
    lemma_member_trees_upto(members@, members@.len());
    assert(member_trees_upto(members@, members@.len()) =~= member_trees(members@));
}

// ─── Reading and writing ────────────────────────────────────────────────────

/// What a `serde_json::Value` holds, the members of an object in the order
/// in which its map walks them.
pub uninterp spec fn value_tree(value: serde_json::Value) -> JsonTree;

/// The text that `Display` gives for a `serde_json::Error`.
pub uninterp spec fn error_text(error: serde_json::Error) -> Seq<char>;

/// What `serde_json::from_str` makes of a text: the value it reads, or the
/// message of the error it reports.
pub uninterp spec fn json_parse(text: Seq<char>) -> Result<JsonTree, Seq<char>>;

/// The object that a `serde_json::Map` holds once the given members were
/// entered into it in order: one member for each key, in the order in
/// which the map walks its keys.
pub uninterp spec fn map_object(members: Seq<(Seq<char>, JsonTree)>) -> JsonTree;

/// The compact text that `serde_json::to_string` writes for a value that
/// holds the given tree.
pub uninterp spec fn json_text(tree: JsonTree) -> Seq<char>;

/// The indented text that `serde_json::to_string_pretty` writes for a
/// value that holds the given tree.
pub uninterp spec fn json_pretty(tree: JsonTree) -> Seq<char>;

/// The unsigned integer that `serde_json::Number::as_u64` reads in a number.
pub uninterp spec fn number_u64(number: serde_json::Number) -> Option<u64>;

/// The number that `From<u64>` of `serde_json::Number` makes of `n`.
pub uninterp spec fn number_from(n: u64) -> serde_json::Number;

/// The tree of the number `n`.
pub open spec fn number_tree(n: u64) -> JsonTree {
    JsonTree::Number(number_from(n))
}

/// `serde_json::from_str` at type `Value`.
#[verifier::external_body]
fn value_from_str(text: &str) -> (parsed: Result<serde_json::Value, serde_json::Error>)
    ensures
        match parsed {
            Ok(value) => json_parse(text@) == Ok::<JsonTree, Seq<char>>(value_tree(value)),
            Err(error) => json_parse(text@) == Err::<JsonTree, Seq<char>>(error_text(error)),
        },
{
    serde_json::from_str::<serde_json::Value>(text)
}

/// `Display` of `serde_json::Error`: the message of the error.
#[verifier::external_body]
fn error_message(error: &serde_json::Error) -> (message: String)
    ensures
        message@ == error_text(*error),
{
    error.to_string()
}

/// One level of a `serde_json::Value`: its variant, with the values below
/// it still as they are.
enum ValueParts {
    Null,
    Bool(bool),
    Number(serde_json::Number),
    Text(String),
    Array(Vec<serde_json::Value>),
    Object(Vec<(String, serde_json::Value)>),
}

/// The trees of a sequence of `serde_json::Value`s.
pub open spec fn value_trees(values: Seq<serde_json::Value>) -> Seq<JsonTree> {
    Seq::new(values.len(), |i: int| value_tree(values[i]))
}

/// The keys and trees of a sequence of members whose values are
/// `serde_json::Value`s.
pub open spec fn member_value_trees(members: Seq<(String, serde_json::Value)>) -> Seq<
    (Seq<char>, JsonTree),
> {
    Seq::new(members.len(), |i: int| (members[i].0@, value_tree(members[i].1)))
}

/// Takes a `serde_json::Value` apart by one level, variant by variant; the
/// members of an object come in the order in which its map walks them.
#[verifier::external_body]
fn value_parts(value: serde_json::Value) -> (parts: ValueParts)
    ensures
        value_tree(value) == match parts {
            ValueParts::Null => JsonTree::Null,
            ValueParts::Bool(b) => JsonTree::Bool(b),
            ValueParts::Number(n) => JsonTree::Number(n),
            ValueParts::Text(s) => JsonTree::Text(s@),
            ValueParts::Array(items) => JsonTree::Array(value_trees(items@)),
            ValueParts::Object(members) => JsonTree::Object(member_value_trees(members@)),
        },
{
    match value {
        serde_json::Value::Null => ValueParts::Null,
        serde_json::Value::Bool(b) => ValueParts::Bool(b),
        serde_json::Value::Number(n) => ValueParts::Number(n),
        serde_json::Value::String(s) => ValueParts::Text(s),
        serde_json::Value::Array(a) => ValueParts::Array(a),
        serde_json::Value::Object(o) => ValueParts::Object(o.into_iter().collect()),
    }
}

/// Puts a `serde_json::Value` together from one level, variant by variant;
/// the members of an object are entered into its map in order.
#[verifier::external_body]
fn value_of(parts: ValueParts) -> (value: serde_json::Value)
    ensures
        value_tree(value) == match parts {
            ValueParts::Null => JsonTree::Null,
            ValueParts::Bool(b) => JsonTree::Bool(b),
            ValueParts::Number(n) => JsonTree::Number(n),
            ValueParts::Text(s) => JsonTree::Text(s@),
            ValueParts::Array(items) => JsonTree::Array(value_trees(items@)),
            ValueParts::Object(members) => map_object(member_value_trees(members@)),
        },
{
    match parts {
        ValueParts::Null => serde_json::Value::Null,
        ValueParts::Bool(b) => serde_json::Value::Bool(b),
        ValueParts::Number(n) => serde_json::Value::Number(n),
        ValueParts::Text(s) => serde_json::Value::String(s),
        ValueParts::Array(a) => serde_json::Value::Array(a),
        ValueParts::Object(o) => serde_json::Value::Object(o.into_iter().collect()),
    }
}

/// `serde_json::to_string` on a `Value`. It writes into a byte vector and
/// every key of a `Value` is a string, so it returns `Ok`.
#[verifier::external_body]
fn value_to_string(value: &serde_json::Value) -> (text: String)
    ensures
        text@ == json_text(value_tree(*value)),
{
    serde_json::to_string(value).expect("a JSON value can be written")
}

/// `serde_json::to_string_pretty` on a `Value`. It writes into a byte
/// vector and every key of a `Value` is a string, so it returns `Ok`.
#[verifier::external_body]
fn value_to_pretty_string(value: &serde_json::Value) -> (text: String)
    ensures
        text@ == json_pretty(value_tree(*value)),
{
    serde_json::to_string_pretty(value).expect("a JSON value can be written")
}

/// `serde_json::Number::as_u64`.
#[verifier::external_body]
fn number_as_u64(number: &serde_json::Number) -> (n: Option<u64>)
    ensures
        n == number_u64(*number),
{
    number.as_u64()
}

/// `From<u64>` of `serde_json::Number`: the number that reads back as `n`.
#[verifier::external_body]
fn number_from_u64(n: u64) -> (number: serde_json::Number)
    ensures
        number == number_from(n),
        number_u64(number) == Some(n),
{
    serde_json::Number::from(n)
}

/// `Clone` of `serde_json::Number`.
#[verifier::external_body]
fn number_clone(number: &serde_json::Number) -> (copy: serde_json::Number)
    ensures
        copy == *number,
{
    number.clone()
}

// ─── Between values and trees ───────────────────────────────────────────────

/// The tree that a `serde_json::Value` holds once it is built from a tree:
/// the same tree, but that each object is what its map makes of the members.
pub open spec fn normal(tree: JsonTree) -> JsonTree
    decreases tree, 0nat,
{
    match tree {
        JsonTree::Array(items) => JsonTree::Array(normal_items(items, items.len())),
        JsonTree::Object(members) => map_object(normal_members(members, members.len())),
        _ => tree,
    }
}

/// The first `n` items, each as the value built from it holds it.
pub open spec fn normal_items(items: Seq<JsonTree>, n: nat) -> Seq<JsonTree>
    decreases items, n,
{
    if n == 0 || n > items.len() {
        Seq::empty()
    } else {
        normal_items(items, (n - 1) as nat).push(normal(items[n - 1]))
    }
}

/// The first `n` members, each value as the value built from it holds it.
pub open spec fn normal_members(members: Seq<(Seq<char>, JsonTree)>, n: nat) -> Seq<
    (Seq<char>, JsonTree),
>
    decreases members, n,
{
    if n == 0 || n > members.len() {
        Seq::empty()
    } else {
        normal_members(members, (n - 1) as nat).push((members[n - 1].0, normal(members[n - 1].1)))
    }
}

/// The compact JSON text of a tree.
pub open spec fn written(tree: JsonTree) -> Seq<char> {
    json_text(normal(tree))
}

/// The indented JSON text of a tree.
pub open spec fn written_pretty(tree: JsonTree) -> Seq<char> {
    json_pretty(normal(tree))
}

/// The tree that a `serde_json::Value` holds, as a value of the library.
fn tree_from_value(value: serde_json::Value) -> (tree: JsonValue)
    ensures
        tree@ == value_tree(value),
    decreases value_tree(value),
{
    let ghost whole = value_tree(value);
    match value_parts(value) {
        ValueParts::Null => JsonValue::Null,
        ValueParts::Bool(b) => JsonValue::Bool(b),
        ValueParts::Number(n) => JsonValue::Number(n),
        ValueParts::Text(s) => JsonValue::Text(s),
        ValueParts::Array(items) => {
            let ghost all = items@;
            let mut out: Vec<JsonValue> = Vec::with_capacity(items.len());
            for item in it: items.into_iter()
                invariant
                    it.seq() == all,
                    whole == value_tree(value),
                    whole == JsonTree::Array(value_trees(all)),
                    out@.len() == it.index(),
                    forall|k: int| 0 <= k < out@.len() ==> (#[trigger] out@[k])@ == value_tree(all[k]),
            {
                proof {
                    let below = value_trees(all);
                    assert(below[it.index() as int] == value_tree(item));
                    assert(whole->Array_0 == below);
                    assert(decreases_to!(whole => whole->Array_0));
                    assert(decreases_to!(below => below[it.index() as int]));
                }
                let tree = tree_from_value(item);
                out.push(tree);
            }
            proof {
                lemma_array_view(out);
                assert(item_trees(out@) =~= value_trees(all));
            }
            JsonValue::Array(out)
        },
        ValueParts::Object(members) => {
            let ghost all = members@;
            let mut out: Vec<(String, JsonValue)> = Vec::with_capacity(members.len());
            for member in it: members.into_iter()
                invariant
                    it.seq() == all,
                    whole == value_tree(value),
                    whole == JsonTree::Object(member_value_trees(all)),
                    out@.len() == it.index(),
                    forall|k: int|
                        0 <= k < out@.len() ==> (#[trigger] out@[k]).0@ == all[k].0@ && out@[k].1@
                            == value_tree(all[k].1),
            {
                proof {
                    let below = member_value_trees(all);
                    assert(below[it.index() as int] == (member.0@, value_tree(member.1)));
                    assert(whole->Object_0 == below);
                    assert(decreases_to!(whole => whole->Object_0));
                    assert(decreases_to!(below => below[it.index() as int]));
                    assert(decreases_to!(below[it.index() as int] => below[it.index() as int].1));
                }
                let tree = tree_from_value(member.1);
                out.push((member.0, tree));
            }
            proof {
                lemma_object_view(out);
                assert(member_trees(out@) =~= member_value_trees(all));
            }
            JsonValue::Object(out)
        },
    }
}

// ─── Looking into a tree ────────────────────────────────────────────────────

/// The value of the last of the first `n` members that has the key `key`.
pub open spec fn member_upto(
    members: Seq<(Seq<char>, JsonTree)>,
    key: Seq<char>,
    n: nat,
) -> Option<JsonTree>
    decreases n,
{
    if n == 0 {
        None
    } else if members[n - 1].0 == key {
        Some(members[n - 1].1)
    } else {
        member_upto(members, key, (n - 1) as nat)
    }
}

/// The value that an object holds under `key`: that of the last member with
/// this key.
pub open spec fn member(members: Seq<(Seq<char>, JsonTree)>, key: Seq<char>) -> Option<JsonTree> {
    member_upto(members, key, members.len())
}

impl JsonTree {
    /// The value under `key`, when the tree is an object that has the key.
    pub open spec fn get(self, key: Seq<char>) -> Option<JsonTree> {
        match self {
            JsonTree::Object(members) => member(members, key),
            _ => None,
        }
    }

    /// The text of the tree, when it is a string.
    pub open spec fn as_text(self) -> Option<Seq<char>> {
        match self {
            JsonTree::Text(s) => Some(s),
            _ => None,
        }
    }

    /// The unsigned integer of the tree, when it is a number that reads as one.
    pub open spec fn as_u64(self) -> Option<u64> {
        match self {
            JsonTree::Number(n) => number_u64(n),
            _ => None,
        }
    }
}

/// The value that the members hold under `key`: that of the last member
/// with this key.
pub fn member_value<'a>(members: &'a Vec<(String, JsonValue)>, key: &str) -> (found: Option<
    &'a JsonValue,
>)
    ensures
        match found {
            Some(value) => member(member_trees(members@), key@) == Some(value@),
            None => member(member_trees(members@), key@) is None,
        },
{
    let ghost trees = member_trees(members@);
    let mut n: usize = members.len();
    while n > 0
        invariant
            n <= members@.len(),
            trees == member_trees(members@),
            member(trees, key@) == member_upto(trees, key@, n as nat),
        decreases n,
    {
        proof {
            assert(trees[n - 1] == (members@[n - 1].0@, members@[n - 1].1@));
        }
        if str_equal(members[n - 1].0.as_str(), key) {
            return Some(&members[n - 1].1);
        }
        n = n - 1;
    }
    None
}

impl JsonValue {
    /// Read a JSON text.
    pub fn parse(text: &str) -> (parsed: Result<JsonValue, String>)
        ensures
            match parsed {
                Ok(value) => json_parse(text@) == Ok::<JsonTree, Seq<char>>(value@),
                Err(message) => json_parse(text@) == Err::<JsonTree, Seq<char>>(message@),
            },
    {
        match value_from_str(text) {
            Ok(value) => Ok(tree_from_value(value)),
            Err(error) => Err(error_message(&error)),
        }
    }

    /// The `serde_json::Value` built from this value.
    fn to_value(&self) -> (value: serde_json::Value)
        ensures
            value_tree(value) == normal(self@),
        decreases self,
    {
        match self {
            JsonValue::Null => value_of(ValueParts::Null),
            JsonValue::Bool(b) => value_of(ValueParts::Bool(*b)),
            JsonValue::Number(n) => value_of(ValueParts::Number(number_clone(n))),
            JsonValue::Text(s) => value_of(ValueParts::Text(s.clone())),
            JsonValue::Array(items) => {
                proof {
                    lemma_array_view(*items);
                }
                let ghost trees = item_trees(items@);
                let mut values: Vec<serde_json::Value> = Vec::with_capacity(items.len());
                let mut i: usize = 0;
                while i < items.len()
                    invariant
                        self is Array && self->Array_0 == *items,
                        i <= items@.len(),
                        trees == item_trees(items@),
                        value_trees(values@) == normal_items(trees, i as nat),
                    decreases items@.len() - i,
                {
                    proof {
                        assert(decreases_to!(items => items[i as int]));
                    }
                    let ghost before = values@;
                    let value = items[i].to_value();
                    values.push(value);
                    i = i + 1;
                    proof {
                        assert(value_trees(values@) =~= value_trees(before).push(value_tree(value)));
                    }
                }
                value_of(ValueParts::Array(values))
            },
            JsonValue::Object(members) => {
                proof {
                    lemma_object_view(*members);
                }
                let ghost trees = member_trees(members@);
                let mut values: Vec<(String, serde_json::Value)> = Vec::with_capacity(
                    members.len(),
                );
                let mut i: usize = 0;
                while i < members.len()
                    invariant
                        self is Object && self->Object_0 == *members,
                        i <= members@.len(),
                        trees == member_trees(members@),
                        member_value_trees(values@) == normal_members(trees, i as nat),
                    decreases members@.len() - i,
                {
                    proof {
                        assert(decreases_to!(members => members[i as int]));
                        assert(trees[i as int] == (members@[i as int].0@, members@[i as int].1@));
                    }
                    let ghost before = values@;
                    let value = members[i].1.to_value();
                    let key = members[i].0.clone();
                    values.push((key, value));
                    i = i + 1;
                    proof {
                        assert(member_value_trees(values@) =~= member_value_trees(before).push(
                            (key@, value_tree(value)),
                        ));
                    }
                }
                value_of(ValueParts::Object(values))
            },
        }
    }

    /// Write the value as compact JSON.
    pub fn to_json_string(&self) -> (text: String)
        ensures
            text@ == written(self@),
    {
        let value = self.to_value();
        value_to_string(&value)
    }

    /// Write the value as indented JSON.
    pub fn to_pretty_string(&self) -> (text: String)
        ensures
            text@ == written_pretty(self@),
    {
        let value = self.to_value();
        value_to_pretty_string(&value)
    }

    /// The number `n`.
    pub fn from_u64(n: u64) -> (value: JsonValue)
        ensures
            value@ == number_tree(n),
            value@.as_u64() == Some(n),
    {
        JsonValue::Number(number_from_u64(n))
    }


    /// The value under `key`, when this is an object that has the key.
    pub fn get(&self, key: &str) -> (found: Option<&JsonValue>)
        ensures
            match found {
                Some(value) => self@.get(key@) == Some(value@),
                None => self@.get(key@) is None,
            },
    {
        match self {
            JsonValue::Object(members) => {
                proof {
                    lemma_object_view(*members);
                }
                member_value(members, key)
            },
            _ => None,
        }
    }

    /// The text, when this is a string.
    pub fn as_str(&self) -> (text: Option<&str>)
        ensures
            match text {
                Some(s) => self@.as_text() == Some(s@),
                None => self@.as_text() is None,
            },
    {
        match self {
            JsonValue::Text(s) => Some(s.as_str()),
            _ => None,
        }
    }

    /// The unsigned integer, when this is a number that reads as one.
    pub fn as_u64(&self) -> (n: Option<u64>)
        ensures
            n == self@.as_u64(),
    {
        match self {
            JsonValue::Number(number) => number_as_u64(number),
            _ => None,
        }
    }

    /// A copy of the value.
    pub fn duplicate(&self) -> (copy: JsonValue)
        ensures
            copy@ == self@,
        decreases self,
    {
        match self {
            JsonValue::Null => JsonValue::Null,
            JsonValue::Bool(b) => JsonValue::Bool(*b),
            JsonValue::Number(n) => JsonValue::Number(number_clone(n)),
            JsonValue::Text(s) => JsonValue::Text(s.clone()),
            JsonValue::Array(items) => {
                let mut copies: Vec<JsonValue> = Vec::with_capacity(items.len());
                let mut i: usize = 0;
                while i < items.len()
                    invariant
                        self is Array && self->Array_0 == *items,
                        i <= items@.len(),
                        copies@.len() == i,
                        forall|k: int| 0 <= k < i ==> copies@[k]@ == items@[k]@,
                    decreases items@.len() - i,
                {
                    proof {
                        assert(decreases_to!(items => items[i as int]));
                    }
                    let item = items[i].duplicate();
                    copies.push(item);
                    i = i + 1;
                }
                proof {
                    lemma_array_view(*items);
                    lemma_array_view(copies);
                    assert(item_trees(copies@) =~= item_trees(items@));
                }
                JsonValue::Array(copies)
            },
            JsonValue::Object(members) => {
                let mut copies: Vec<(String, JsonValue)> = Vec::with_capacity(members.len());
                let mut i: usize = 0;
                while i < members.len()
                    invariant
                        self is Object && self->Object_0 == *members,
                        i <= members@.len(),
                        copies@.len() == i,
                        forall|k: int|
                            0 <= k < i ==> copies@[k].0@ == members@[k].0@ && copies@[k].1@
                                == members@[k].1@,
                    decreases members@.len() - i,
                {
                    proof {
                        assert(decreases_to!(members => members[i as int]));
                    }
                    let value = members[i].1.duplicate();
                    copies.push((members[i].0.clone(), value));
                    i = i + 1;
                }
                proof {
                    lemma_object_view(*members);
                    lemma_object_view(copies);
                    assert(member_trees(copies@) =~= member_trees(members@));
                }
                JsonValue::Object(copies)
            },
        }
    }
}

} // verus!
