//! JSON values: a plain model, reading one out of text with the `serde_json` crate, looking
//! things up in it, building one.

use vstd::prelude::*;
use crate::text::same;

verus! {

/// A JSON value. A number is held as its decimal text, an object as its members.
#[derive(Debug, PartialEq)]
pub enum Json {
    Null,
    Bool(bool),
    Number(String),
    Text(String),
    List(Vec<Json>),
    Object(Vec<(String, Json)>),
}

/// The mathematical model of a JSON value.
#[verifier::ext_equal]
pub enum JsonTree {
    Null,
    Bool(bool),
    Number(Seq<char>),
    Text(Seq<char>),
    List(Seq<JsonTree>),
    Object(Seq<MemberTree>),
}

/// A member of an object.
#[verifier::ext_equal]
pub struct MemberTree {
    pub key: Seq<char>,
    pub value: JsonTree,
}

/// The member of an object with a key and a value.
pub open spec fn member(key: Seq<char>, value: JsonTree) -> MemberTree {
    MemberTree { key, value }
}

impl View for Json {
    type V = JsonTree;

    open spec fn view(&self) -> JsonTree
        decreases self,
    {
        match self {
            Json::Null => JsonTree::Null,
            Json::Bool(b) => JsonTree::Bool(*b),
            Json::Number(s) => JsonTree::Number(s@),
            Json::Text(s) => JsonTree::Text(s@),
            Json::List(items) => JsonTree::List(
                Seq::new(
                    items@.len(),
                    |i: int|
                        if 0 <= i < items@.len() {
                            items@[i]@
                        } else {
                            JsonTree::Null
                        },
                ),
            ),
            Json::Object(members) => JsonTree::Object(
                Seq::new(
                    members@.len(),
                    |i: int|
                        if 0 <= i < members@.len() {
                            MemberTree { key: members@[i].0@, value: members@[i].1@ }
                        } else {
                            MemberTree { key: Seq::empty(), value: JsonTree::Null }
                        },
                ),
            ),
        }
    }
}

// ---------------------------------------------------------------------------------------------
// Looking things up
// ---------------------------------------------------------------------------------------------

/// The first of `members` with the name `key`.
pub open spec fn named(members: Seq<MemberTree>, key: Seq<char>) -> Option<JsonTree>
    decreases members.len(),
{
    if members.len() == 0 {
        None
    } else if members.first().key == key {
        Some(members.first().value)
    } else {
        named(members.drop_first(), key)
    }
}

impl JsonTree {
    /// The member `key` of an object; nothing in any other value.
    pub open spec fn member(self, key: Seq<char>) -> Option<JsonTree> {
        match self {
            JsonTree::Object(members) => named(members, key),
            _ => None,
        }
    }

    /// The item at `i` of a list; nothing in any other value.
    pub open spec fn item(self, i: int) -> Option<JsonTree> {
        match self {
            JsonTree::List(items) => if 0 <= i < items.len() {
                Some(items[i])
            } else {
                None
            },
            _ => None,
        }
    }

    /// The characters of a text; nothing in any other value.
    pub open spec fn text(self) -> Option<Seq<char>> {
        match self {
            JsonTree::Text(s) => Some(s),
            _ => None,
        }
    }

    /// The text in the member `key`.
    pub open spec fn member_text(self, key: Seq<char>) -> Option<Seq<char>> {
        match self.member(key) {
            Some(v) => v.text(),
            None => None,
        }
    }
}

/// The model of a value that may be missing.
pub open spec fn tree_of(v: Option<Json>) -> Option<JsonTree> {
    match v {
        Some(j) => Some(j@),
        None => None,
    }
}

/// The model of a borrowed value that may be missing.
pub open spec fn tree_of_ref(v: Option<&Json>) -> Option<JsonTree> {
    match v {
        Some(j) => Some(j@),
        None => None,
    }
}

/// The characters of a string that may be missing.
pub open spec fn view_of(s: Option<String>) -> Option<Seq<char>> {
    match s {
        Some(t) => Some(t@),
        None => None,
    }
}

impl Json {
    /// The member `key` of an object; nothing in any other value.
    pub fn member(&self, key: &str) -> (r: Option<&Json>)
        ensures
            tree_of_ref(r) == self@.member(key@),
    {
        if let Json::Object(members) = self {
            let ghost all = self@->Object_0;
            let mut i: usize = 0;
            assert(all.skip(0) == all);
            while i < members.len()
                invariant
                    i <= members@.len() == all.len(),
                    self@ == JsonTree::Object(all),
                    forall|k: int|
                        0 <= k < all.len() ==> all[k] == member(
                            (#[trigger] members@[k]).0@,
                            members@[k].1@,
                        ),
                    named(all.skip(i as int), key@) == named(all, key@),
                decreases members@.len() - i,
            {
                assert(all.skip(i as int).first() == member(
                    members@[i as int].0@,
                    members@[i as int].1@,
                ));
                assert(all.skip(i as int).drop_first() == all.skip(i + 1));
                if same(members[i].0.as_str(), key) {
                    return Some(&members[i].1);
                }
                i = i + 1;
            }
        }
        None
    }

    /// The item at `i` of a list; nothing in any other value.
    pub fn item(&self, i: usize) -> (r: Option<&Json>)
        ensures
            tree_of_ref(r) == self@.item(i as int),
    {
        match self {
            Json::List(items) => if i < items.len() {
                Some(&items[i])
            } else {
                None
            },
            _ => None,
        }
    }

    /// The characters of a text; nothing in any other value.
    pub fn text(&self) -> (r: Option<String>)
        ensures
            view_of(r) == self@.text(),
    {
        match self {
            Json::Text(s) => Some(s.clone()),
            _ => None,
        }
    }

    /// The text in the member `key`.
    pub fn member_text(&self, key: &str) -> (r: Option<String>)
        ensures
            view_of(r) == self@.member_text(key@),
    {
        match self.member(key) {
            Some(v) => v.text(),
            None => None,
        }
    }
}

// ---------------------------------------------------------------------------------------------
// Reading
// ---------------------------------------------------------------------------------------------

/// The values of `serde_json`.
#[verifier::external_type_specification]
#[verifier::external_body]
pub struct ExValue(serde_json::Value);

/// What a value of `serde_json` holds.
pub uninterp spec fn tree(value: serde_json::Value) -> JsonTree;

/// What `serde_json` reads in a text; nothing where the text is not JSON.
pub uninterp spec fn read_text(text: Seq<char>) -> Option<JsonTree>;

/// What `serde_json` reads in bytes; nothing where they are not JSON.
pub uninterp spec fn read_bytes(bytes: Seq<u8>) -> Option<JsonTree>;

/// What a value holds that may be missing.
pub open spec fn value_tree(value: Option<serde_json::Value>) -> Option<JsonTree> {
    match value {
        Some(v) => Some(tree(v)),
        None => None,
    }
}

/// `serde_json::from_str` into a `serde_json::Value`. What it reads depends on the text alone.
#[verifier::external_body]
fn value_in_text(text: &str) -> (r: Option<serde_json::Value>)
    ensures
        value_tree(r) == read_text(text@),
{
    serde_json::from_str(text).ok()
}

/// `serde_json::from_slice` into a `serde_json::Value`. What it reads depends on the bytes alone.
#[verifier::external_body]
fn value_in_bytes(bytes: &[u8]) -> (r: Option<serde_json::Value>)
    ensures
        value_tree(r) == read_bytes(bytes@),
{
    serde_json::from_slice(bytes).ok()
}

/// A value of `serde_json` of which the outermost layer is open.
pub enum Opened {
    Null,
    Bool(bool),
    Number(String),
    Text(String),
    List(Vec<serde_json::Value>),
    Object(Vec<(String, serde_json::Value)>),
}

impl Opened {
    /// What the value holds.
    pub open spec fn holds(self) -> JsonTree {
        match self {
            Opened::Null => JsonTree::Null,
            Opened::Bool(b) => JsonTree::Bool(b),
            Opened::Number(s) => JsonTree::Number(s@),
            Opened::Text(s) => JsonTree::Text(s@),
            Opened::List(items) => JsonTree::List(items@.map_values(|v: serde_json::Value| tree(v))),
            Opened::Object(members) => JsonTree::Object(member_trees(members@)),
        }
    }
}

/// What named values of `serde_json` hold.
pub open spec fn member_trees(members: Seq<(String, serde_json::Value)>) -> Seq<MemberTree> {
    members.map_values(|m: (String, serde_json::Value)| member(m.0@, tree(m.1)))
}

/// The outermost layer of a `serde_json::Value`, variant by variant: a number as the text that
/// `serde_json` prints for it, the members of an object in the order in which its map gives them.
/// This says what a value holds.
#[verifier::external_body]
pub(crate) fn open_value(value: serde_json::Value) -> (o: Opened)
    ensures
        o.holds() == tree(value),
{
    match value {
        serde_json::Value::Null => Opened::Null,
        serde_json::Value::Bool(b) => Opened::Bool(b),
        serde_json::Value::Number(n) => Opened::Number(n.to_string()),
        serde_json::Value::String(s) => Opened::Text(s),
        serde_json::Value::Array(items) => Opened::List(items),
        serde_json::Value::Object(members) => Opened::Object(members.into_iter().collect()),
    }
}

/// The members that `serde_json` reads in a text that is a JSON object, in the order in which its
/// map gives them; nothing in any other text.
pub uninterp spec fn read_members(text: Seq<char>) -> Option<Seq<MemberTree>>;

/// What members hold that may be missing.
pub open spec fn members_tree(members: Option<Vec<(String, serde_json::Value)>>) -> Option<
    Seq<MemberTree>,
> {
    match members {
        Some(m) => Some(member_trees(m@)),
        None => None,
    }
}

/// `serde_json::from_str` into a `serde_json::Map`, whose members are handed out in its order.
/// What it reads depends on the text alone.
#[verifier::external_body]
pub(crate) fn members_in_text(text: &str) -> (r: Option<Vec<(String, serde_json::Value)>>)
    ensures
        members_tree(r) == read_members(text@),
{
    let map: Option<serde_json::Map<String, serde_json::Value>> = serde_json::from_str(text).ok();
    map.map(|m| m.into_iter().collect())
}

/// The text that `serde_json` prints for a value.
pub uninterp spec fn json_text(value: JsonTree) -> Seq<char>;

/// `ToString::to_string` of a `serde_json::Value`. What it prints depends on what the value holds
/// alone.
#[verifier::external_body]
pub(crate) fn print_value(value: &serde_json::Value) -> (text: String)
    ensures
        text@ == json_text(tree(*value)),
{
    value.to_string()
}

/// A value of `serde_json` as one of this library.
pub fn plain(value: serde_json::Value) -> (j: Json)
    ensures
        j@ == tree(value),
    decreases tree(value),
{
    match open_value(value) {
        Opened::Null => Json::Null,
        Opened::Bool(b) => Json::Bool(b),
        Opened::Number(s) => Json::Number(s),
        Opened::Text(s) => Json::Text(s),
        Opened::List(items) => {
            let ghost all = items@;
            let ghost trees = tree(value)->List_0;
            let mut list: Vec<Json> = Vec::new();
            for v in it: items
                invariant
                    it.seq() == all,
                    tree(value) == JsonTree::List(trees),
                    trees == all.map_values(|v: serde_json::Value| tree(v)),
                    list@.len() == it.index(),
                    forall|k: int| 0 <= k < list@.len() ==> (#[trigger] list@[k])@ == trees[k],
            {
                proof {
                    let whole = tree(value);
                    assert(decreases_to!(whole => whole->List_0));
                    assert(decreases_to!(trees => trees[it.index() as int]));
                }
                list.push(plain(v));
            }
            let j = Json::List(list);
            assert(j@->List_0 == trees);
            j
        },
        Opened::Object(members) => {
            let ghost all = members@;
            let ghost trees = tree(value)->Object_0;
            let mut list: Vec<(String, Json)> = Vec::new();
            for m in it: members
                invariant
                    it.seq() == all,
                    tree(value) == JsonTree::Object(trees),
                    trees == member_trees(all),
                    list@.len() == it.index(),
                    forall|k: int|
                        0 <= k < list@.len() ==> trees[k] == member(
                            (#[trigger] list@[k]).0@,
                            list@[k].1@,
                        ),
            {
                proof {
                    let whole = tree(value);
                    let current = trees[it.index() as int];
                    assert(decreases_to!(whole => whole->Object_0));
                    assert(decreases_to!(trees => trees[it.index() as int]));
                    assert(decreases_to!(current => current.value));
                }
                list.push((m.0, plain(m.1)));
            }
            let j = Json::Object(list);
            assert(j@->Object_0 == trees);
            j
        },
    }
}

/// What `serde_json` reads in a text.
pub fn parse_text(text: &str) -> (r: Option<Json>)
    ensures
        tree_of(r) == read_text(text@),
{
    match value_in_text(text) {
        Some(v) => Some(plain(v)),
        None => None,
    }
}

/// What `serde_json` reads in bytes.
pub fn parse_bytes(bytes: &[u8]) -> (r: Option<Json>)
    ensures
        tree_of(r) == read_bytes(bytes@),
{
    match value_in_bytes(bytes) {
        Some(v) => Some(plain(v)),
        None => None,
    }
}

// ---------------------------------------------------------------------------------------------
// Building
// ---------------------------------------------------------------------------------------------

/// A text.
pub fn text(s: &str) -> (j: Json)
    ensures
        j@ == JsonTree::Text(s@),
{
    Json::Text(s.to_owned())
}

/// A number, from its decimal text.
pub fn number(s: &str) -> (j: Json)
    ensures
        j@ == JsonTree::Number(s@),
{
    Json::Number(s.to_owned())
}

/// A list of one item.
pub fn list_of_one(a: Json) -> (j: Json)
    ensures
        j@ == JsonTree::List(seq![a@]),
{
    let mut items: Vec<Json> = Vec::new();
    items.push(a);
    let j = Json::List(items);
    assert(j@->List_0 == seq![a@]);
    j
}

/// A list of two items.
pub fn list_of_two(a: Json, b: Json) -> (j: Json)
    ensures
        j@ == JsonTree::List(seq![a@, b@]),
{
    let mut items: Vec<Json> = Vec::new();
    items.push(a);
    items.push(b);
    let j = Json::List(items);
    assert(j@->List_0 == seq![a@, b@]);
    j
}

/// The members of an object that is being built.
pub struct Members {
    list: Vec<(String, Json)>,
}

impl View for Members {
    type V = Seq<MemberTree>;

    closed spec fn view(&self) -> Seq<MemberTree> {
        self.list@.map_values(|m: (String, Json)| member(m.0@, m.1@))
    }
}

impl Members {
    /// No members.
    pub fn new() -> (m: Members)
        ensures
            m@ == Seq::<MemberTree>::empty(),
    {
        let m = Members { list: Vec::new() };
        assert(m@ == Seq::<MemberTree>::empty());
        m
    }

    /// These members with one more at the end.
    pub fn with(self, key: &str, value: Json) -> (m: Members)
        ensures
            m@ == self@.push(member(key@, value@)),
    {
        let mut list = self.list;
        list.push((key.to_owned(), value));
        let m = Members { list };
        assert(m@ == self@.push(member(key@, value@)));
        m
    }

    /// The object with these members.
    pub fn object(self) -> (j: Json)
        ensures
            j@ == JsonTree::Object(self@),
    {
        let j = Json::Object(self.list);
        assert(j@->Object_0 == self@);
        j
    }
}

// ---------------------------------------------------------------------------------------------
// Laws
// ---------------------------------------------------------------------------------------------

/// A member is found under its name, unless an earlier one has the same name.
pub proof fn law_members_are_found(members: Seq<MemberTree>, k: int)
    requires
        0 <= k < members.len(),
        forall|j: int| 0 <= j < k ==> (#[trigger] members[j]).key != members[k].key,
    ensures
        JsonTree::Object(members).member(members[k].key) == Some(members[k].value),
    decreases k,
{
    if k > 0 {
        assert(members[0].key != members[k].key);
        let rest = members.drop_first();
        assert forall|j: int| 0 <= j < k - 1 implies (#[trigger] rest[j]).key != rest[k - 1].key by {
            assert(members[j + 1].key != members[k].key);
        }
        law_members_are_found(rest, k - 1);
    }
}

/// What no member is named is not found.
pub proof fn law_missing_members_are_not_found(members: Seq<MemberTree>, key: Seq<char>)
    requires
        forall|j: int| 0 <= j < members.len() ==> (#[trigger] members[j]).key != key,
    ensures
        JsonTree::Object(members).member(key) is None,
    decreases members.len(),
{
    if members.len() > 0 {
        assert(members[0].key != key);
        let rest = members.drop_first();
        assert forall|j: int| 0 <= j < rest.len() implies (#[trigger] rest[j]).key != key by {
            assert(members[j + 1].key != key);
        }
        law_missing_members_are_not_found(rest, key);
    }
}

/// The model of a value holds all that the value holds, in the same order.
pub proof fn law_models_hold_everything(j: Json, k: int)
    ensures
        j matches Json::Text(s) ==> j@ == JsonTree::Text(s@),
        j matches Json::Number(s) ==> j@ == JsonTree::Number(s@),
        j matches Json::Bool(b) ==> j@ == JsonTree::Bool(b),
        j matches Json::List(items) ==> j@ is List && j@->List_0.len() == items@.len() && (0 <= k
            < items@.len() ==> j@->List_0[k] == items@[k]@),
        j matches Json::Object(members) ==> j@ is Object && j@->Object_0.len() == members@.len()
            && (0 <= k < members@.len() ==> j@->Object_0[k].key == members@[k].0@
            && j@->Object_0[k].value == members@[k].1@),
{
}

/// An item of a list is found at its place, and nothing beyond the end. Only texts have characters,
/// and they have all of them; only objects have members.
pub proof fn law_items_and_texts_are_found(
    items: Seq<JsonTree>,
    i: int,
    value: JsonTree,
    key: Seq<char>,
)
    ensures
        0 <= i < items.len() ==> JsonTree::List(items).item(i) == Some(items[i]),
        i >= items.len() ==> JsonTree::List(items).item(i) is None,
        value !is List ==> value.item(i) is None,
        value matches JsonTree::Text(s) ==> value.text() == Some(s),
        value !is Text ==> value.text() is None,
        value !is Object ==> value.member(key) is None,
{
}

} // verus!
