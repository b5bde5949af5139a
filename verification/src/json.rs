//! JSON documents as the helper reads and writes them.
//!
//! [`Json`] is the helper's own document type: its logic reads and builds
//! documents in it. `serde_json` turns text into documents and documents into
//! text; [`Json::parse`] and [`Json::pretty`] are the two places where it is
//! called.

use crate::text::same_text;
use vstd::prelude::*;

verus! {

/// A JSON document as a mathematical value.
///
/// A number that is a `u64` or a negative `i64` is known by its value; any other
/// number is carried along as it is.
#[verifier::ext_equal]
pub enum JsonView {
    Null,
    Bool(bool),
    Unsigned(u64),
    Negative(i64),
    Number(serde_json::Number),
    Text(Seq<char>),
    Array(Seq<JsonView>),
    Object(Map<Seq<char>, JsonView>),
}

impl JsonView {
    /// The member `key` of an object.
    pub open spec fn get(self, key: Seq<char>) -> Option<JsonView> {
        match self {
            JsonView::Object(m) => if m.contains_key(key) {
                Some(m[key])
            } else {
                None
            },
            _ => None,
        }
    }

    /// The characters of a text.
    pub open spec fn text(self) -> Option<Seq<char>> {
        match self {
            JsonView::Text(s) => Some(s),
            _ => None,
        }
    }

    /// The value of a number that is a `u64`.
    pub open spec fn unsigned(self) -> Option<u64> {
        match self {
            JsonView::Unsigned(n) => Some(n),
            _ => None,
        }
    }

    /// The value of a number that is an `i64`.
    pub open spec fn signed(self) -> Option<i64> {
        match self {
            JsonView::Unsigned(n) => if n <= i64::MAX {
                Some(n as i64)
            } else {
                None
            },
            JsonView::Negative(n) => Some(n),
            _ => None,
        }
    }

    /// The value of a boolean.
    pub open spec fn boolean(self) -> Option<bool> {
        match self {
            JsonView::Bool(b) => Some(b),
            _ => None,
        }
    }

    /// The items of an array.
    pub open spec fn items(self) -> Option<Seq<JsonView>> {
        match self {
            JsonView::Array(a) => Some(a),
            _ => None,
        }
    }

    /// The characters of the member `key`, or none where it is no text.
    pub open spec fn text_at(self, key: Seq<char>) -> Seq<char> {
        match self.get(key) {
            Some(v) => match v.text() {
                Some(s) => s,
                None => Seq::empty(),
            },
            None => Seq::empty(),
        }
    }

    /// The number in the member `key`, or 0 where it is no `u64`.
    pub open spec fn unsigned_at(self, key: Seq<char>) -> u64 {
        match self.get(key) {
            Some(v) => match v.unsigned() {
                Some(n) => n,
                None => 0,
            },
            None => 0,
        }
    }

    /// At most `levels` arrays and objects lie inside each other, and every
    /// number is a `u64` or an `i64`.
    pub open spec fn is_plain(self, levels: nat) -> bool
        decreases levels,
    {
        match self {
            JsonView::Number(_) => false,
            JsonView::Array(a) => levels > 0 && forall|i: int|
                0 <= i < a.len() ==> (#[trigger] a[i]).is_plain((levels - 1) as nat),
            JsonView::Object(m) => levels > 0 && forall|k: Seq<char>|
                m.contains_key(k) ==> (#[trigger] m[k]).is_plain((levels - 1) as nat),
            _ => true,
        }
    }
}

/// A number as `serde_json` holds it.
#[verifier::external_type_specification]
#[verifier::external_body]
pub struct ExNumber(serde_json::Number);

/// A document as `serde_json` holds it.
#[verifier::external_type_specification]
#[verifier::external_body]
pub struct ExValue(serde_json::Value);

/// The members of an object as `serde_json` holds them.
#[verifier::external_type_specification]
#[verifier::external_body]
#[verifier::reject_recursive_types(K)]
#[verifier::reject_recursive_types(V)]
pub struct ExMap<K, V>(serde_json::Map<K, V>);

/// What `serde_json::Number::as_u64` gives for a number.
pub uninterp spec fn number_u64(n: serde_json::Number) -> Option<u64>;

/// What `serde_json::Number::as_i64` gives for a number.
pub uninterp spec fn number_i64(n: serde_json::Number) -> Option<i64>;

/// What a `serde_json::Value` holds.
pub uninterp spec fn value_view(v: serde_json::Value) -> JsonView;

/// The members that a `serde_json::Map` holds.
pub uninterp spec fn map_view(m: serde_json::Map<String, serde_json::Value>) -> Map<
    Seq<char>,
    JsonView,
>;

/// What `serde_json::from_str` makes of a text: the document that it holds, or
/// the message of the error.
pub uninterp spec fn json_parsed(s: Seq<char>) -> Result<JsonView, Seq<char>>;

/// The text that `serde_json::to_string_pretty` writes for a document.
pub uninterp spec fn json_pretty(v: JsonView) -> Seq<char>;

/// The document that a number is.
pub open spec fn number_view(n: serde_json::Number) -> JsonView {
    match number_u64(n) {
        Some(u) => JsonView::Unsigned(u),
        None => match number_i64(n) {
            Some(i) => JsonView::Negative(i),
            None => JsonView::Number(n),
        },
    }
}

/// The members of an empty object.
pub open spec fn no_members() -> Map<Seq<char>, JsonView> {
    Map::empty()
}

/// The most arrays and objects inside each other that `serde_json` reads.
pub const MAX_LEVELS: u64 = 127;

/// Reading `s` gives the document `v`, where `v` is plain.
pub open spec fn reads_back(s: Seq<char>, v: JsonView) -> bool {
    v.is_plain(MAX_LEVELS as nat) ==> (json_parsed(s) matches Ok(w) && w == v)
}

/// A JSON document.
///
/// The entries of an object stand in the order in which they were put there; of
/// two entries with one key the later counts.
#[derive(Debug)]
pub enum Json {
    Null,
    Bool(bool),
    Number(serde_json::Number),
    Text(String),
    Array(Vec<Json>),
    Object(Vec<(String, Json)>),
}

/// The items of an array.
pub open spec fn items_view(items: Seq<Json>) -> Seq<JsonView>
    decreases items,
{
    if items.len() == 0 {
        Seq::empty()
    } else {
        items_view(items.drop_last()).push(items.last().view())
    }
}

/// The members that the entries of an object give it.
pub open spec fn entries_view(entries: Seq<(String, Json)>) -> Map<Seq<char>, JsonView>
    decreases entries,
{
    if entries.len() == 0 {
        Map::empty()
    } else {
        entries_view(entries.drop_last()).insert(entries.last().0@, entries.last().1.view())
    }
}

/// [`items_view`] item by item.
pub proof fn lemma_items_view(items: Seq<Json>)
    ensures
        items_view(items).len() == items.len(),
        forall|i: int| 0 <= i < items.len() ==> #[trigger] items_view(items)[i] == items[i].view(),
    decreases items,
{
    if items.len() > 0 {
        lemma_items_view(items.drop_last());
    }
}

impl Json {
    /// The document as a mathematical value.
    pub open spec fn view(&self) -> JsonView
        decreases self,
    {
        match self {
            Json::Null => JsonView::Null,
            Json::Bool(b) => JsonView::Bool(*b),
            Json::Number(n) => number_view(*n),
            Json::Text(s) => JsonView::Text(s@),
            Json::Array(items) => JsonView::Array(items_view(items@)),
            Json::Object(entries) => JsonView::Object(entries_view(entries@)),
        }
    }

    /// A number.
    pub fn unsigned(n: u64) -> (r: Json)
        ensures
            r@ == JsonView::Unsigned(n),
    {
        Json::Number(number_from(n))
    }

    /// A text.
    pub fn text(s: &str) -> (r: Json)
        ensures
            r@ == JsonView::Text(s@),
    {
        Json::Text(s.to_owned())
    }

    /// An object with one member.
    pub fn member(key: &str, value: Json) -> (r: Json)
        ensures
            r@ == JsonView::Object(Map::empty().insert(key@, value@)),
    {
        let mut entries: Vec<(String, Json)> = Vec::new();
        put(&mut entries, key, value);
        Json::Object(entries)
    }

    /// The member `key` of an object.
    pub fn get(&self, key: &str) -> (r: Option<&Json>)
        ensures
            match r {
                Some(v) => self@.get(key@) == Some(v@),
                None => self@.get(key@) is None,
            },
    {
        match self {
            Json::Object(entries) => match find_entry(entries, key) {
                Some(i) => Some(&entries[i].1),
                None => None,
            },
            _ => None,
        }
    }

    /// The characters of a text.
    pub fn as_text(&self) -> (r: Option<&String>)
        ensures
            match r {
                Some(s) => self@.text() == Some(s@),
                None => self@.text() is None,
            },
    {
        match self {
            Json::Text(s) => Some(s),
            _ => None,
        }
    }

    /// The value of a number that is a `u64`.
    pub fn as_u64(&self) -> (r: Option<u64>)
        ensures
            r == self@.unsigned(),
    {
        match self {
            Json::Number(n) => n.as_u64(),
            _ => None,
        }
    }

    /// The value of a number that is an `i64`.
    pub fn as_i64(&self) -> (r: Option<i64>)
        ensures
            r == self@.signed(),
    {
        match self {
            Json::Number(n) => n.as_i64(),
            _ => None,
        }
    }

    /// The value of a boolean.
    pub fn as_bool(&self) -> (r: Option<bool>)
        ensures
            r == self@.boolean(),
    {
        match self {
            Json::Bool(b) => Some(*b),
            _ => None,
        }
    }

    /// The items of an array.
    pub fn as_array(&self) -> (r: Option<&Vec<Json>>)
        ensures
            match r {
                Some(a) => self@.items() == Some(items_view(a@)),
                None => self@.items() is None,
            },
    {
        match self {
            Json::Array(a) => Some(a),
            _ => None,
        }
    }

    /// Whether the document is `null`.
    pub fn is_null(&self) -> (r: bool)
        ensures
            r == (self@ is Null),
    {
        match self {
            Json::Null => true,
            _ => false,
        }
    }

    /// The characters of the member `key`, or none where it is no text.
    pub fn text_at(&self, key: &str) -> (r: String)
        ensures
            r@ == self@.text_at(key@),
    {
        match self.get(key) {
            Some(v) => match v.as_text() {
                Some(s) => s.clone(),
                None => String::new(),
            },
            None => String::new(),
        }
    }

    /// The number in the member `key`, or 0 where it is no `u64`.
    pub fn unsigned_at(&self, key: &str) -> (r: u64)
        ensures
            r == self@.unsigned_at(key@),
    {
        match self.get(key) {
            Some(v) => match v.as_u64() {
                Some(n) => n,
                None => 0,
            },
            None => 0,
        }
    }

    /// Reads the document that a text holds; an error comes with the message of
    /// `serde_json`.
    pub fn parse(s: &str) -> (r: Result<Json, String>)
        ensures
            match r {
                Ok(v) => json_parsed(s@) matches Ok(w) && w == v@,
                Err(e) => json_parsed(s@) matches Err(m) && m == e@,
            },
    {
        match parse_value(s) {
            Ok(v) => Ok(document(v)),
            Err(e) => Err(e),
        }
    }

    /// The document as text, indented by two spaces a level. Where the document
    /// is plain, reading the text gives it back.
    pub fn pretty(&self) -> (r: String)
        ensures
            r@ == json_pretty(self@),
            r@.len() > 0,
            reads_back(r@, self@),
    {
        pretty_value(&value_of(self))
    }
}

/// The place of the entry that gives an object its member `key`.
pub fn find_entry(entries: &Vec<(String, Json)>, key: &str) -> (r: Option<usize>)
    ensures
        match r {
            Some(i) => i < entries@.len() && entries@[i as int].0@ == key@ && entries_view(
                entries@,
            ).contains_key(key@) && entries_view(entries@)[key@] == entries@[i as int].1@,
            None => !entries_view(entries@).contains_key(key@),
        },
{
    let mut i: usize = entries.len();
    let ghost all = JsonView::Object(entries_view(entries@));
    assert(entries@.take(i as int) =~= entries@);
    while i > 0
        invariant
            i <= entries.len(),
            all == JsonView::Object(entries_view(entries@)),
            all.get(key@) == JsonView::Object(entries_view(entries@.take(i as int))).get(key@),
        decreases i,
    {
        assert(entries@.take(i as int).drop_last() =~= entries@.take(i - 1));
        if same_text(&entries[i - 1].0, key) {
            assert(all.get(key@) == Some(entries@[i - 1].1@));
            return Some(i - 1);
        }
        i -= 1;
    }
    None
}

/// Every member of an object has an entry.
pub proof fn lemma_member_has_entry(entries: Seq<(String, Json)>, key: Seq<char>)
    requires
        entries_view(entries).contains_key(key),
    ensures
        exists|i: int| 0 <= i < entries.len() && (#[trigger] entries[i]).0@ == key,
    decreases entries,
{
    if entries.last().0@ == key {
        assert(entries[entries.len() - 1].0@ == key);
    } else {
        lemma_member_has_entry(entries.drop_last(), key);
        let i = choose|i: int|
            0 <= i < entries.drop_last().len() && (#[trigger] entries.drop_last()[i]).0@ == key;
        assert(entries[i].0@ == key);
    }
}

/// Puts a member into the entries of an object.
pub fn put(entries: &mut Vec<(String, Json)>, key: &str, value: Json)
    ensures
        entries_view(final(entries)@) == entries_view(old(entries)@).insert(key@, value@),
{
    entries.push((key.to_owned(), value));
    assert(entries@.drop_last() =~= old(entries)@);
}

/// Adds an item to those of an array.
pub fn add_item(items: &mut Vec<Json>, item: Json)
    ensures
        items_view(final(items)@) == items_view(old(items)@).push(item@),
{
    items.push(item);
    assert(items@.drop_last() =~= old(items)@);
}

/// What `read` makes of the items of an array, in order.
pub fn read_items<T, R: Fn(&Json) -> T>(items: &Vec<Json>, read: R) -> (r: Vec<T>)
    requires
        forall|item: &Json| call_requires(read, (item,)),
    ensures
        r@.len() == items@.len(),
        forall|i: int| 0 <= i < r@.len() ==> call_ensures(read, (&items@[i],), #[trigger] r@[i]),
{
    let mut told: Vec<T> = Vec::new();
    for item in it: items.iter()
        invariant
            it.seq() == items@.as_ref(),
            told@.len() == it.index(),
            forall|item: &Json| call_requires(read, (item,)),
            forall|i: int|
                0 <= i < told@.len() ==> call_ensures(read, (&items@[i],), #[trigger] told@[i]),
    {
        told.push(read(item));
    }
    told
}

/// One level of a document: what it is, with the documents inside it still as
/// `serde_json` holds them.
enum Node {
    Null,
    Bool(bool),
    Number(serde_json::Number),
    Text(String),
    Array(Vec<serde_json::Value>),
    Object(serde_json::Map<String, serde_json::Value>),
}

/// The documents in `items`.
pub open spec fn values_view(items: Seq<serde_json::Value>) -> Seq<JsonView> {
    items.map_values(|v: serde_json::Value| value_view(v))
}

/// The members that `entries` give an object.
pub open spec fn members_view(entries: Seq<(String, serde_json::Value)>) -> Map<
    Seq<char>,
    JsonView,
>
    decreases entries.len(),
{
    if entries.len() == 0 {
        Map::empty()
    } else {
        members_view(entries.drop_last()).insert(entries.last().0@, value_view(entries.last().1))
    }
}

/// No two entries have the same key.
pub open spec fn distinct_keys(entries: Seq<(String, serde_json::Value)>) -> bool {
    forall|i: int, j: int|
        0 <= i < j < entries.len() ==> (#[trigger] entries[i]).0@ != (#[trigger] entries[j]).0@
}

spec fn node_view(n: Node) -> JsonView {
    match n {
        Node::Null => JsonView::Null,
        Node::Bool(b) => JsonView::Bool(b),
        Node::Number(n) => number_view(n),
        Node::Text(s) => JsonView::Text(s@),
        Node::Array(a) => JsonView::Array(values_view(a@)),
        Node::Object(m) => JsonView::Object(map_view(m)),
    }
}

/// `serde_json::Number::as_u64` gives the value of a number that is a `u64`.
pub assume_specification[ serde_json::Number::as_u64 ](n: &serde_json::Number) -> (r: Option<u64>)
    ensures
        r == number_u64(*n),
;

/// `serde_json::Number::as_i64` gives the value of a number that is an `i64`. Where the
/// number is a `u64` too, both are one value; where it is none, the value is negative.
pub assume_specification[ serde_json::Number::as_i64 ](n: &serde_json::Number) -> (r: Option<i64>)
    ensures
        r == number_i64(*n),
        match number_u64(*n) {
            Some(u) => match r {
                Some(i) => i == u,
                None => u > i64::MAX,
            },
            None => match r {
                Some(i) => i < 0,
                None => true,
            },
        },
;

/// `Clone` of `serde_json::Number` gives the same number.
pub assume_specification[ <serde_json::Number as Clone>::clone ](n: &serde_json::Number) -> (r:
    serde_json::Number)
    ensures
        r == *n,
;

/// `serde_json::Number::from` on a `u64`: the number whose value it is.
#[verifier::external_body]
fn number_from(n: u64) -> (r: serde_json::Number)
    ensures
        number_u64(r) == Some(n),
{
    serde_json::Number::from(n)
}

/// `serde_json::from_str`: the document that a text holds, or the message of the
/// error; both depend on the text alone.
#[verifier::external_body]
fn parse_value(s: &str) -> (r: Result<serde_json::Value, String>)
    ensures
        match r {
            Ok(v) => json_parsed(s@) matches Ok(w) && w == value_view(v),
            Err(e) => json_parsed(s@) matches Err(m) && m == e@,
        },
{
    match serde_json::from_str(s) {
        Ok(v) => Ok(v),
        Err(e) => Err(e.to_string()),
    }
}

/// `serde_json::to_string_pretty` on a document: it always succeeds, and its text,
/// which is never empty, depends on what the document holds alone. Reading the text
/// of a plain document gives the document back; of one with a number that is no
/// integer, or with more levels than `serde_json` reads, nothing of the kind is
/// claimed.
#[verifier::external_body]
fn pretty_value(v: &serde_json::Value) -> (r: String)
    ensures
        r@ == json_pretty(value_view(*v)),
        r@.len() > 0,
        reads_back(r@, value_view(*v)),
{
    serde_json::to_string_pretty(v).expect("a document has no keys but text")
}

/// The variants of `serde_json::Value`, told apart.
#[verifier::external_body]
fn node_of(v: serde_json::Value) -> (r: Node)
    ensures
        node_view(r) == value_view(v),
{
    match v {
        serde_json::Value::Null => Node::Null,
        serde_json::Value::Bool(b) => Node::Bool(b),
        serde_json::Value::Number(n) => Node::Number(n),
        serde_json::Value::String(s) => Node::Text(s),
        serde_json::Value::Array(a) => Node::Array(a),
        serde_json::Value::Object(m) => Node::Object(m),
    }
}

/// The variants of `serde_json::Value`, built.
#[verifier::external_body]
fn value_from(n: Node) -> (r: serde_json::Value)
    ensures
        value_view(r) == node_view(n),
{
    match n {
        Node::Null => serde_json::Value::Null,
        Node::Bool(b) => serde_json::Value::Bool(b),
        Node::Number(n) => serde_json::Value::Number(n),
        Node::Text(s) => serde_json::Value::String(s),
        Node::Array(a) => serde_json::Value::Array(a),
        Node::Object(m) => serde_json::Value::Object(m),
    }
}

/// `serde_json::Map::new` has no members.
#[verifier::external_body]
fn map_new() -> (r: serde_json::Map<String, serde_json::Value>)
    ensures
        map_view(r) == no_members(),
{
    serde_json::Map::new()
}

/// `serde_json::Map::insert` sets one member, whether the map had it or not.
#[verifier::external_body]
fn map_insert(
    m: &mut serde_json::Map<String, serde_json::Value>,
    key: String,
    value: serde_json::Value,
)
    ensures
        map_view(*final(m)) == map_view(*old(m)).insert(key@, value_view(value)),
{
    m.insert(key, value);
}

/// `serde_json::Map::into_iter` hands out each member once.
#[verifier::external_body]
fn map_entries(m: serde_json::Map<String, serde_json::Value>) -> (r: Vec<
    (String, serde_json::Value),
>)
    ensures
        members_view(r@) == map_view(m),
        distinct_keys(r@),
{
    m.into_iter().collect()
}

proof fn lemma_members_finite(entries: Seq<(String, serde_json::Value)>)
    ensures
        members_view(entries).dom().finite(),
    decreases entries.len(),
{
    if entries.len() > 0 {
        lemma_members_finite(entries.drop_last());
    }
}

proof fn lemma_member(entries: Seq<(String, serde_json::Value)>, i: int)
    requires
        distinct_keys(entries),
        0 <= i < entries.len(),
    ensures
        members_view(entries).contains_key(entries[i].0@),
        members_view(entries)[entries[i].0@] == value_view(entries[i].1),
    decreases entries.len(),
{
    if i < entries.len() - 1 {
        let rest = entries.drop_last();
        assert forall|a: int, b: int| 0 <= a < b < rest.len() implies (#[trigger] rest[a]).0@ != (
        #[trigger] rest[b]).0@ by {
            assert(entries[a].0@ != entries[b].0@);
        }
        lemma_member(rest, i);
        assert(rest[i] == entries[i]);
        assert(entries[i].0@ != entries[entries.len() - 1].0@);
    }
}

/// The document that `v` holds.
fn document(v: serde_json::Value) -> (r: Json)
    ensures
        r@ == value_view(v),
    decreases value_view(v),
{
    let ghost whole = value_view(v);
    match node_of(v) {
        Node::Null => Json::Null,
        Node::Bool(b) => Json::Bool(b),
        Node::Number(n) => Json::Number(n),
        Node::Text(s) => Json::Text(s),
        Node::Array(a) => {
            let mut items: Vec<Json> = Vec::new();
            let ghost all = a@;
            for x in it: a
                invariant
                    it.seq() == all,
                    whole == JsonView::Array(values_view(all)),
                    whole == value_view(v),
                    items_view(items@) == values_view(all.take(it.index() as int)),
            {
                let ghost inner = values_view(all);
                assert(inner[it.index() as int] == value_view(x));
                assert(decreases_to!(whole => whole->Array_0));
                assert(decreases_to!(inner => inner[it.index() as int]));
                assert(all.take(it.index() + 1).drop_last() =~= all.take(it.index() as int));
                add_item(&mut items, document(x));
            }
            assert(all.take(all.len() as int) =~= all);
            Json::Array(items)
        },
        Node::Object(m) => {
            let es = map_entries(m);
            let mut entries: Vec<(String, Json)> = Vec::new();
            let ghost all = es@;
            for x in it: es
                invariant
                    it.seq() == all,
                    distinct_keys(all),
                    whole == JsonView::Object(members_view(all)),
                    whole == value_view(v),
                    entries_view(entries@) == members_view(all.take(it.index() as int)),
            {
                let ghost inner = members_view(all);
                proof {
                    lemma_member(all, it.index() as int);
                    lemma_members_finite(all);
                }
                assert(decreases_to!(whole => whole->Object_0));
                assert(decreases_to!(inner => inner[x.0@]));
                assert(all.take(it.index() + 1).drop_last() =~= all.take(it.index() as int));
                let (key, value) = x;
                put(&mut entries, &key, document(value));
            }
            assert(all.take(all.len() as int) =~= all);
            Json::Object(entries)
        },
    }
}

/// The document as `serde_json` holds it.
fn value_of(j: &Json) -> (r: serde_json::Value)
    ensures
        value_view(r) == j@,
    decreases j,
{
    match j {
        Json::Null => value_from(Node::Null),
        Json::Bool(b) => value_from(Node::Bool(*b)),
        Json::Number(n) => value_from(Node::Number(n.clone())),
        Json::Text(s) => value_from(Node::Text(s.clone())),
        Json::Array(items) => {
            let mut a: Vec<serde_json::Value> = Vec::new();
            let mut i: usize = 0;
            while i < items.len()
                invariant
                    i <= items.len(),
                    *j == Json::Array(*items),
                    values_view(a@) == items_view(items@.take(i as int)),
                decreases items.len() - i,
            {
                assert(items@.take(i + 1).drop_last() =~= items@.take(i as int));
                assert(decreases_to!(*j => j->Array_0));
                assert(decreases_to!(*items => items@));
                assert(decreases_to!(items@ => items@[i as int]));
                a.push(value_of(&items[i]));
                assert(values_view(a@) =~= items_view(items@.take(i + 1)));
                i += 1;
            }
            assert(items@.take(i as int) =~= items@);
            value_from(Node::Array(a))
        },
        Json::Object(entries) => {
            let mut m = map_new();
            let mut i: usize = 0;
            while i < entries.len()
                invariant
                    i <= entries.len(),
                    *j == Json::Object(*entries),
                    map_view(m) == entries_view(entries@.take(i as int)),
                decreases entries.len() - i,
            {
                assert(entries@.take(i + 1).drop_last() =~= entries@.take(i as int));
                assert(decreases_to!(*j => j->Object_0));
                assert(decreases_to!(*entries => entries@));
                assert(decreases_to!(entries@ => entries@[i as int]));
                map_insert(&mut m, entries[i].0.clone(), value_of(&entries[i].1));
                i += 1;
            }
            assert(entries@.take(i as int) =~= entries@);
            value_from(Node::Object(m))
        },
    }
}

// ---------------------------------------------------------------------------
// Laws
// ---------------------------------------------------------------------------

/// A member of an object is what the object holds under its key, and nothing else has
/// members.
pub proof fn law_member_is_under_its_key(v: JsonView, key: Seq<char>, w: JsonView)
    ensures
        v.get(key) == Some(w) <==> (v matches JsonView::Object(m) && m.contains_key(key) && m[key]
            == w),
        v.get(key) is None <==> !(v matches JsonView::Object(m) && m.contains_key(key)),
{
}

/// What a document says of itself: texts give their characters, booleans their value,
/// arrays their items and integers their value where it fits; any other document gives
/// nothing.
pub proof fn law_document_gives_its_value(v: JsonView)
    ensures
        forall|s: Seq<char>| v.text() == Some(s) <==> v == JsonView::Text(s),
        forall|b: bool| v.boolean() == Some(b) <==> v == JsonView::Bool(b),
        forall|a: Seq<JsonView>| v.items() == Some(a) <==> v == JsonView::Array(a),
        forall|n: u64| v.unsigned() == Some(n) <==> v == JsonView::Unsigned(n),
        forall|n: i64|
            v.signed() == Some(n) <==> v == JsonView::Negative(n) || (n >= 0 && v
                == JsonView::Unsigned(n as u64)),
{
    assert forall|n: i64|
        v.signed() == Some(n) <==> v == JsonView::Negative(n) || (n >= 0 && v
            == JsonView::Unsigned(n as u64)) by {
        if let JsonView::Unsigned(u) = v {
            assert(v.signed() == Some(n) <==> u <= i64::MAX && u as i64 == n);
        }
    }
}

/// The text of a member is read character by character, and a member that is missing
/// or no text reads as an empty one. A number is read likewise, and 0 stands for what
/// is none.
pub proof fn law_member_is_read(m: Map<Seq<char>, JsonView>, key: Seq<char>)
    ensures
        forall|s: Seq<char>|
            m.contains_key(key) && m[key] == JsonView::Text(s) ==> #[trigger] JsonView::Object(
                m,
            ).text_at(key) == s,
        !(m.contains_key(key) && m[key] is Text) ==> JsonView::Object(m).text_at(key).len() == 0,
        forall|n: u64|
            m.contains_key(key) && m[key] == JsonView::Unsigned(n) ==> JsonView::Object(
                m,
            ).unsigned_at(key) == n,
        !(m.contains_key(key) && m[key] is Unsigned) ==> JsonView::Object(m).unsigned_at(key) == 0,
{
}

/// What is no object has neither texts nor numbers in members.
pub proof fn law_no_object_has_no_members(v: JsonView, key: Seq<char>)
    requires
        !(v is Object),
    ensures
        v.text_at(key).len() == 0,
        v.unsigned_at(key) == 0,
{
}

/// Integers, texts, booleans and `null` are plain at every level. An array or an
/// object is plain where everything in it is plain one level below, and a number that
/// is no integer never is.
pub proof fn law_plain_documents(v: JsonView, levels: nat)
    ensures
        v is Null || v is Bool || v is Unsigned || v is Negative || v is Text ==> v.is_plain(levels),
        v is Number ==> !v.is_plain(levels),
        v matches JsonView::Array(a) ==> !v.is_plain(0) && (v.is_plain(levels + 1) <==> forall|
            i: int,
        |
            0 <= i < a.len() ==> (#[trigger] a[i]).is_plain(levels)),
        v matches JsonView::Object(m) ==> !v.is_plain(0) && (v.is_plain(levels + 1) <==> forall|
            k: Seq<char>,
        |
            m.contains_key(k) ==> (#[trigger] m[k]).is_plain(levels)),
{
    reveal_with_fuel(JsonView::is_plain, 2);
}

/// A text that reads back gives its document, wherever that is plain down to 127
/// levels.
pub proof fn law_plain_document_reads_back(s: Seq<char>, v: JsonView)
    requires
        reads_back(s, v),
        v.is_plain(127),
    ensures
        json_parsed(s) == Ok::<JsonView, Seq<char>>(v),
{
}

/// Numbers are known by their value where they are integers that fit, and by
/// themselves otherwise.
pub proof fn law_number_is_known_by_value(n: serde_json::Number)
    ensures
        forall|u: u64| number_u64(n) == Some(u) ==> number_view(n) == JsonView::Unsigned(u),
        forall|i: i64|
            number_u64(n) is None && number_i64(n) == Some(i) ==> number_view(n)
                == JsonView::Negative(i),
        number_u64(n) is None && number_i64(n) is None ==> number_view(n) == JsonView::Number(n),
{
}

/// A document is known by its kind and what it holds, and an array by its items one by
/// one.
pub proof fn law_document_view_tells_all(j: Json)
    ensures
        match j {
            Json::Null => j@ == JsonView::Null,
            Json::Bool(b) => j@ == JsonView::Bool(b),
            Json::Number(n) => j@ == number_view(n),
            Json::Text(s) => j@ == JsonView::Text(s@),
            Json::Array(items) => j@ matches JsonView::Array(a) && a.len() == items@.len()
                && forall|i: int| 0 <= i < a.len() ==> #[trigger] a[i] == items@[i]@,
            Json::Object(entries) => j@ == JsonView::Object(entries_view(entries@)),
        },
{
    if let Json::Array(items) = j {
        lemma_items_view(items@);
    }
}

/// An object has a member for each key of its entries and no other; of several entries
/// with one key the last counts.
pub proof fn law_last_entry_counts(entries: Seq<(String, Json)>, i: int)
    requires
        0 <= i < entries.len(),
        forall|j: int| i < j < entries.len() ==> (#[trigger] entries[j]).0@ != entries[i].0@,
    ensures
        entries_view(entries).contains_key(entries[i].0@),
        entries_view(entries)[entries[i].0@] == entries[i].1@,
        forall|key: Seq<char>| #[trigger]
            entries_view(entries).contains_key(key) ==> exists|k: int|
                0 <= k < entries.len() && (#[trigger] entries[k]).0@ == key,
    decreases entries.len(),
{
    assert forall|key: Seq<char>| #[trigger]
        entries_view(entries).contains_key(key) implies exists|k: int|
        0 <= k < entries.len() && (#[trigger] entries[k]).0@ == key by {
        lemma_member_has_entry(entries, key);
    }
    if i < entries.len() - 1 {
        let rest = entries.drop_last();
        assert(entries[entries.len() - 1].0@ != entries[i].0@);
        assert forall|j: int| i < j < rest.len() implies (#[trigger] rest[j]).0@ != rest[i].0@ by {
            assert(entries[j].0@ != entries[i].0@);
        }
        law_last_entry_counts(rest, i);
    }
}

} // verus!
