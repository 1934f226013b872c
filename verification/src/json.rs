//! JSON values as the proxy reads and writes them.
//!
//! Parsing and printing are `serde_json`'s. A parsed value is turned into a
//! [`Json`], a plain tree of this library, and everything the proxy decides is
//! decided on that tree.

use crate::text;
use crate::wire::{self, Position, Range};
use serde_json::Value;
use vstd::prelude::*;

verus! {

// ---------------------------------------------------------------------------
// Trees
// ---------------------------------------------------------------------------

/// A JSON number, by the integer it is. The digits of a fraction are not kept:
/// no message the proxy reads carries one that matters.
#[derive(Debug, Clone, Copy, PartialEq, Eq, Structural)]
pub enum Number {
    /// An integer from 0 to `u64::MAX`.
    PosInt(u64),
    /// A negative integer down to `i64::MIN`.
    NegInt(i64),
    /// Any other number.
    Float,
}

impl Number {
    /// The number as a `u64`, if it is one.
    pub open spec fn to_u64(self) -> Option<u64> {
        match self {
            Number::PosInt(n) => Some(n),
            _ => None,
        }
    }

    /// The number as an `i64`, if it is one.
    pub open spec fn to_i64(self) -> Option<i64> {
        match self {
            Number::PosInt(n) => if n <= i64::MAX {
                Some(n as i64)
            } else {
                None
            },
            Number::NegInt(n) => Some(n),
            Number::Float => None,
        }
    }
}

/// A JSON value.
#[derive(Debug)]
pub enum Json {
    Null,
    Bool(bool),
    Number(Number),
    Str(String),
    Array(Vec<Json>),
    /// Keys and values; no key occurs twice in a parsed value.
    Object(Vec<(String, Json)>),
}

/// The value of a [`Json`].
pub enum Tree {
    Null,
    Bool(bool),
    Number(Number),
    Str(Seq<char>),
    Array(Seq<Tree>),
    Object(Seq<(Seq<char>, Tree)>),
}

/// The value of the first entry with this key.
pub open spec fn lookup(entries: Seq<(Seq<char>, Tree)>, key: Seq<char>) -> Option<Tree>
    decreases entries.len(),
{
    if entries.len() == 0 {
        None
    } else if entries[0].0 == key {
        Some(entries[0].1)
    } else {
        lookup(entries.drop_first(), key)
    }
}

/// A key is found where it first occurs.
pub proof fn lookup_finds(entries: Seq<(Seq<char>, Tree)>, i: int)
    requires
        0 <= i < entries.len(),
        forall|j: int| 0 <= j < i ==> (#[trigger] entries[j]).0 != entries[i].0,
    ensures
        lookup(entries, entries[i].0) == Some(entries[i].1),
    decreases i,
{
    if i > 0 {
        let rest = entries.drop_first();
        assert forall|j: int| 0 <= j < i - 1 implies (#[trigger] rest[j]).0 != rest[i - 1].0 by {
            assert(rest[j] == entries[j + 1]);
        }
        assert(entries[0].0 != entries[i].0);
        lookup_finds(rest, i - 1);
    }
}

/// A key that does not occur is not found.
pub proof fn lookup_misses(entries: Seq<(Seq<char>, Tree)>, key: Seq<char>)
    requires
        forall|j: int| 0 <= j < entries.len() ==> (#[trigger] entries[j]).0 != key,
    ensures
        lookup(entries, key) is None,
    decreases entries.len(),
{
    if entries.len() > 0 {
        let rest = entries.drop_first();
        assert forall|j: int| 0 <= j < rest.len() implies (#[trigger] rest[j]).0 != key by {
            assert(rest[j] == entries[j + 1]);
        }
        assert(entries[0].0 != key);
        lookup_misses(rest, key);
    }
}

impl Tree {
    /// The member of an object; `None` for a missing key or another value.
    pub open spec fn get(self, key: Seq<char>) -> Option<Tree> {
        match self {
            Tree::Object(entries) => lookup(entries, key),
            _ => None,
        }
    }

    /// The text of a string; `None` for another value.
    pub open spec fn text(self) -> Option<Seq<char>> {
        match self {
            Tree::Str(s) => Some(s),
            _ => None,
        }
    }

    /// The items of an array; `None` for another value.
    pub open spec fn items(self) -> Option<Seq<Tree>> {
        match self {
            Tree::Array(items) => Some(items),
            _ => None,
        }
    }

    /// A number as a `u64`; `None` if it is not one, or for another value.
    pub open spec fn to_u64(self) -> Option<u64> {
        match self {
            Tree::Number(n) => n.to_u64(),
            _ => None,
        }
    }

    /// A number as an `i64`; `None` if it is not one, or for another value.
    pub open spec fn to_i64(self) -> Option<i64> {
        match self {
            Tree::Number(n) => n.to_i64(),
            _ => None,
        }
    }

    /// No fraction occurs in the tree, and containers nest at most `depth` deep.
    pub open spec fn bounded(self, depth: nat) -> bool
        decreases self,
    {
        match self {
            Tree::Number(n) => !(n is Float),
            Tree::Array(items) => depth > 0 && forall|i: int|
                0 <= i < items.len() ==> (#[trigger] items[i]).bounded((depth - 1) as nat),
            Tree::Object(entries) => depth > 0 && forall|i: int|
                0 <= i < entries.len() ==> (#[trigger] entries[i]).1.bounded((depth - 1) as nat),
            _ => true,
        }
    }
}

/// The member of an optional value.
pub open spec fn member(t: Option<Tree>, key: Seq<char>) -> Option<Tree> {
    match t {
        Some(t) => t.get(key),
        None => None,
    }
}

/// The text of an optional value.
pub open spec fn member_text(t: Option<Tree>, key: Seq<char>) -> Option<Seq<char>> {
    match member(t, key) {
        Some(t) => t.text(),
        None => None,
    }
}

impl Json {
    /// The value of this JSON value.
    pub open spec fn tree(self) -> Tree
        decreases self,
    {
        match self {
            Json::Null => Tree::Null,
            Json::Bool(b) => Tree::Bool(b),
            Json::Number(n) => Tree::Number(n),
            Json::Str(s) => Tree::Str(s@),
            Json::Array(items) => Tree::Array(
                Seq::new(
                    items@.len(),
                    |i: int|
                        if 0 <= i < items@.len() {
                            items@[i].tree()
                        } else {
                            Tree::Null
                        },
                ),
            ),
            Json::Object(entries) => Tree::Object(
                Seq::new(
                    entries@.len(),
                    |i: int|
                        if 0 <= i < entries@.len() {
                            (entries@[i].0@, entries@[i].1.tree())
                        } else {
                            (Seq::empty(), Tree::Null)
                        },
                ),
            ),
        }
    }
}

impl View for Json {
    type V = Tree;

    open spec fn view(&self) -> Tree {
        self.tree()
    }
}

/// The value of an optional [`Json`].
pub open spec fn opt_view(j: Option<&Json>) -> Option<Tree> {
    match j {
        Some(j) => Some(j@),
        None => None,
    }
}

/// The value of optional text.
pub open spec fn opt_text(s: Option<&str>) -> Option<Seq<char>> {
    match s {
        Some(s) => Some(s@),
        None => None,
    }
}

impl Json {
    /// The member of an object; `None` for a missing key or another value.
    pub fn get(&self, key: &str) -> (r: Option<&Json>)
        ensures
            opt_view(r) == self@.get(key@),
    {
        match self {
            Json::Object(entries) => {
                let ghost all = self@->Object_0;
                let mut i: usize = 0;
                assert(all.skip(0) =~= all);
                while i < entries.len()
                    invariant
                        i <= entries@.len(),
                        self@ == Tree::Object(all),
                        all.len() == entries@.len(),
                        forall|k: int|
                            0 <= k < all.len() ==> #[trigger] all[k] == (
                                entries@[k].0@,
                                entries@[k].1@,
                            ),
                        lookup(all, key@) == lookup(all.skip(i as int), key@),
                    decreases entries.len() - i,
                {
                    assert(all.skip(i as int)[0] == all[i as int]);
                    if text::str_eq(entries[i].0.as_str(), key) {
                        return Some(&entries[i].1);
                    }
                    assert(all.skip(i as int).drop_first() =~= all.skip(i + 1));
                    i = i + 1;
                }
                None
            },
            _ => None,
        }
    }

    /// The text of a string; `None` for another value.
    pub fn as_str(&self) -> (r: Option<&str>)
        ensures
            opt_text(r) == self@.text(),
    {
        match self {
            Json::Str(s) => Some(s.as_str()),
            _ => None,
        }
    }

    /// The items of an array; `None` for another value.
    pub fn as_array(&self) -> (r: Option<&Vec<Json>>)
        ensures
            match r {
                Some(items) => {
                    &&& self@.items() is Some
                    &&& self@.items()->0.len() == items@.len()
                    &&& forall|i: int|
                        0 <= i < items@.len() ==> #[trigger] self@.items()->0[i] == items@[i]@
                },
                None => self@.items() is None,
            },
    {
        match self {
            Json::Array(items) => Some(items),
            _ => None,
        }
    }

    /// A number as a `u64`; `None` if it is not one, or for another value.
    pub fn as_u64(&self) -> (r: Option<u64>)
        ensures
            r == self@.to_u64(),
    {
        match self {
            Json::Number(Number::PosInt(n)) => Some(*n),
            _ => None,
        }
    }

    /// A number as an `i64`; `None` if it is not one, or for another value.
    pub fn as_i64(&self) -> (r: Option<i64>)
        ensures
            r == self@.to_i64(),
    {
        match self {
            Json::Number(Number::PosInt(n)) => if *n <= i64::MAX as u64 {
                Some(*n as i64)
            } else {
                None
            },
            Json::Number(Number::NegInt(n)) => Some(*n),
            _ => None,
        }
    }

    /// Whether the value is `null`.
    pub fn is_null(&self) -> (r: bool)
        ensures
            r == (self@ is Null),
    {
        match self {
            Json::Null => true,
            _ => false,
        }
    }
}

/// The member of an optional value.
pub fn get_member<'a>(j: Option<&'a Json>, key: &str) -> (r: Option<&'a Json>)
    ensures
        opt_view(r) == member(opt_view(j), key@),
{
    match j {
        Some(j) => j.get(key),
        None => None,
    }
}

/// The text of a member of an optional value.
pub fn get_text<'a>(j: Option<&'a Json>, key: &str) -> (r: Option<&'a str>)
    ensures
        opt_text(r) == member_text(opt_view(j), key@),
{
    match get_member(j, key) {
        Some(j) => j.as_str(),
        None => None,
    }
}

/// Optional text, owned.
pub fn owned_text(s: Option<&str>) -> (r: Option<String>)
    ensures
        wire::string_view(r) == opt_text(s),
{
    match s {
        Some(s) => Some(s.to_owned()),
        None => None,
    }
}

// ---------------------------------------------------------------------------
// serde_json
// ---------------------------------------------------------------------------

/// `serde_json::Value`, opaque here.
#[verifier::external_type_specification]
#[verifier::external_body]
pub struct ExValue(serde_json::Value);

/// What a `serde_json::Value` holds: the tree of its variants, an object's
/// entries in the order in which the map iterates over them.
pub uninterp spec fn value_tree(v: serde_json::Value) -> Tree;

/// What `serde_json::from_slice` makes of `body`, as a value: the JSON text's
/// tree, or nothing if `body` is not one JSON text.
pub uninterp spec fn json_of(body: Seq<u8>) -> Option<Tree>;

/// What `serde_json::to_vec` prints for a value with this tree.
pub uninterp spec fn json_bytes(t: Tree) -> Seq<u8>;

/// One level of a `serde_json::Value`.
enum Node<'a> {
    Null,
    Bool(bool),
    Number(Option<u64>, Option<i64>),
    Str(&'a str),
    Array(&'a Vec<Value>),
    Object(Vec<(&'a String, &'a Value)>),
}

/// The number with these two readings.
spec fn number_of(to_u64: Option<u64>, to_i64: Option<i64>) -> Number {
    match (to_u64, to_i64) {
        (Some(n), _) => Number::PosInt(n),
        (None, Some(n)) => Number::NegInt(n),
        (None, None) => Number::Float,
    }
}

/// The tree of a value whose outermost level is `node`.
spec fn node_tree(node: Node) -> Tree {
    match node {
        Node::Null => Tree::Null,
        Node::Bool(b) => Tree::Bool(b),
        Node::Number(u, i) => Tree::Number(number_of(u, i)),
        Node::Str(s) => Tree::Str(s@),
        Node::Array(items) => Tree::Array(items@.map_values(|v: Value| value_tree(v))),
        Node::Object(entries) => Tree::Object(
            entries@.map_values(|e: (&String, &Value)| (e.0@, value_tree(*e.1))),
        ),
    }
}

/// `serde_json::from_slice`: parse `body` as one JSON value. The result is
/// named, not described; `None` is any parse error.
#[verifier::external_body]
fn parse_value(body: &[u8]) -> (r: Option<Value>)
    ensures
        match r {
            Some(v) => json_of(body@) == Some(value_tree(v)),
            None => json_of(body@) is None,
        },
{
    serde_json::from_slice(body).ok()
}

/// The variant of a `serde_json::Value` and what it holds. A number is taken
/// by `Number::as_u64`, which is `Some` exactly for the integers from 0 to
/// `u64::MAX`, and `Number::as_i64`, which for the others is `Some` exactly
/// for the negative integers down to `i64::MIN`; an object by the entries of
/// `Map::iter`.
#[verifier::external_body]
fn open_value<'a>(v: &'a Value) -> (node: Node<'a>)
    ensures
        node_tree(node) == value_tree(*v),
{
    match v {
        Value::Null => Node::Null,
        Value::Bool(b) => Node::Bool(*b),
        Value::Number(n) => Node::Number(n.as_u64(), n.as_i64()),
        Value::String(s) => Node::Str(s),
        Value::Array(items) => Node::Array(items),
        Value::Object(map) => Node::Object(map.iter().collect()),
    }
}

/// `Value::String`: a string value.
#[verifier::external_body]
pub(crate) fn text_value(s: &str) -> (v: Value)
    ensures
        value_tree(v) == Tree::Str(s@),
{
    Value::String(s.to_owned())
}

/// `<Value as From<u64>>::from`: a number value.
#[verifier::external_body]
pub(crate) fn number_value(n: u64) -> (v: Value)
    ensures
        value_tree(v) == Tree::Number(Number::PosInt(n)),
{
    Value::from(n)
}

/// `a` comes before `b` in the order of strings: lexicographically, by the
/// positions of the characters in the code charts.
pub open spec fn key_before(a: Seq<char>, b: Seq<char>) -> bool
    decreases a.len(),
{
    if a.len() == 0 || b.len() == 0 {
        a.len() == 0 && b.len() > 0
    } else if a[0] == b[0] {
        key_before(a.drop_first(), b.drop_first())
    } else {
        a[0] < b[0]
    }
}

/// `Map::from_iter`, behind `Value::Object`: an object value. The map keeps
/// its entries in ascending order of their keys, so entries that ascend stay
/// as they are.
#[verifier::external_body]
pub(crate) fn object_value(entries: Vec<(String, Value)>) -> (v: Value)
    requires
        forall|i: int, j: int|
            0 <= i < j < entries@.len() ==> key_before(
                (#[trigger] entries@[i]).0@,
                (#[trigger] entries@[j]).0@,
            ),
    ensures
        value_tree(v) == Tree::Object(
            entries@.map_values(|e: (String, Value)| (e.0@, value_tree(e.1))),
        ),
{
    Value::Object(entries.into_iter().collect())
}

/// `serde_json::to_vec`: print a value, which cannot fail for a
/// `serde_json::Value`. The bytes are named, not described, but parsing them
/// gives back the value: the parser's limit of nested containers is not
/// reached, and the trees of fractions, which do not tell two apart, are left
/// out.
#[verifier::external_body]
pub(crate) fn print_value(v: &Value) -> (bytes: Vec<u8>)
    requires
        value_tree(*v).bounded(127),
    ensures
        bytes@ == json_bytes(value_tree(*v)),
        json_of(bytes@) == Some(value_tree(*v)),
{
    serde_json::to_vec(v).expect("a JSON value prints")
}

impl Json {
    /// The tree of a `serde_json` value.
    fn of_value(v: &Value) -> (j: Json)
        ensures
            j@ == value_tree(*v),
        decreases value_tree(*v),
    {
        match open_value(v) {
            Node::Null => Json::Null,
            Node::Bool(b) => Json::Bool(b),
            Node::Number(u, i) => Json::Number(
                match (u, i) {
                    (Some(n), _) => Number::PosInt(n),
                    (None, Some(n)) => Number::NegInt(n),
                    (None, None) => Number::Float,
                },
            ),
            Node::Str(s) => Json::Str(s.to_owned()),
            Node::Array(values) => {
                let mut items: Vec<Json> = Vec::new();
                let ghost trees = value_tree(*v)->Array_0;
                let mut i: usize = 0;
                while i < values.len()
                    invariant
                        i == items@.len(),
                        i <= values@.len(),
                        value_tree(*v) == Tree::Array(trees),
                        trees == values@.map_values(|v: Value| value_tree(v)),
                        forall|k: int| 0 <= k < i ==> (#[trigger] items@[k])@ == trees[k],
                    decreases values.len() - i,
                {
                    proof {
                        assert(decreases_to!(value_tree(*v) => value_tree(*v)->Array_0));
                        assert(decreases_to!(trees => trees[i as int]));
                    }
                    items.push(Json::of_value(&values[i]));
                    i = i + 1;
                }
                let j: Json = Json::Array(items);
                assert(j@->Array_0 =~= trees);
                j
            },
            Node::Object(pairs) => {
                let mut entries: Vec<(String, Json)> = Vec::new();
                let ghost trees = value_tree(*v)->Object_0;
                let mut i: usize = 0;
                while i < pairs.len()
                    invariant
                        i == entries@.len(),
                        i <= pairs@.len(),
                        value_tree(*v) == Tree::Object(trees),
                        trees == pairs@.map_values(
                            |e: (&String, &Value)| (e.0@, value_tree(*e.1)),
                        ),
                        forall|k: int|
                            0 <= k < i ==> ((#[trigger] entries@[k]).0@, entries@[k].1@)
                                == trees[k],
                    decreases pairs.len() - i,
                {
                    proof {
                        assert(decreases_to!(value_tree(*v) => value_tree(*v)->Object_0));
                        assert(decreases_to!(trees => trees[i as int]));
                        assert(decreases_to!(trees[i as int] => trees[i as int].1));
                    }
                    entries.push((pairs[i].0.clone(), Json::of_value(pairs[i].1)));
                    i = i + 1;
                }
                let j: Json = Json::Object(entries);
                assert(j@->Object_0 =~= trees);
                j
            },
        }
    }
}

/// Parse a message body. `None` if it is not one JSON text.
pub fn parse_json(body: &[u8]) -> (r: Option<Json>)
    ensures
        match r {
            Some(j) => json_of(body@) == Some(j@),
            None => json_of(body@) is None,
        },
{
    match parse_value(body) {
        Some(v) => Some(Json::of_value(&v)),
        None => None,
    }
}

// ---------------------------------------------------------------------------
// Geometry
// ---------------------------------------------------------------------------

/// The low 32 bits of `n`.
pub open spec fn low32(n: u64) -> u32 {
    (n % 0x1_0000_0000) as u32
}

/// The position that `{"line": .., "character": ..}` gives. A coordinate
/// beyond 32 bits is cut to its low 32.
pub open spec fn position_of(t: Tree) -> Option<Position> {
    match (t.get("line"@), t.get("character"@)) {
        (Some(line), Some(character)) => match (line.to_u64(), character.to_u64()) {
            (Some(l), Some(c)) => Some(Position { line: low32(l), character: low32(c) }),
            _ => None,
        },
        _ => None,
    }
}

/// The range that `{"start": .., "end": ..}` gives.
pub open spec fn range_of(t: Tree) -> Option<Range> {
    match (t.get("start"@), t.get("end"@)) {
        (Some(start), Some(end)) => match (position_of(start), position_of(end)) {
            (Some(s), Some(e)) => Some(Range { start: s, end: e }),
            _ => None,
        },
        _ => None,
    }
}

fn cut32(n: u64) -> (r: u32)
    ensures
        r == low32(n),
{
    assert(n as u32 == (n % 0x1_0000_0000) as u32) by (bit_vector);
    #[verifier::truncate]
    (n as u32)
}

/// The position that a JSON value gives; `None` if it gives none.
pub fn parse_position(v: &Json) -> (r: Option<Position>)
    ensures
        r == position_of(v@),
{
    let line: u64 = v.get("line")?.as_u64()?;
    let character: u64 = v.get("character")?.as_u64()?;
    Some(Position { line: cut32(line), character: cut32(character) })
}

/// The range that a JSON value gives; `None` if it gives none.
pub fn parse_range(v: &Json) -> (r: Option<Range>)
    ensures
        r == range_of(v@),
{
    let start: Position = parse_position(v.get("start")?)?;
    let end: Position = parse_position(v.get("end")?)?;
    Some(Range { start, end })
}

// ---------------------------------------------------------------------------
// Laws
// ---------------------------------------------------------------------------

/// `t` is an object with the value `v` under `key`.
pub open spec fn has(t: Tree, key: Seq<char>, v: Tree) -> bool {
    t matches Tree::Object(entries) && lookup(entries, key) == Some(v)
}

/// `t` is an object without `key`.
pub open spec fn lacks(t: Tree, key: Seq<char>) -> bool {
    t matches Tree::Object(entries) && lookup(entries, key) is None
}

/// `t` is `{"line": .., "character": ..}` for this position.
pub open spec fn says_position(t: Tree, p: Position) -> bool {
    &&& has(t, "line"@, Tree::Number(Number::PosInt(p.line as u64)))
    &&& has(t, "character"@, Tree::Number(Number::PosInt(p.character as u64)))
}

/// `t` is `{"start": .., "end": ..}` for this range.
pub open spec fn says_range(t: Tree, r: Range) -> bool {
    &&& t is Object
    &&& lookup(t->Object_0, "start"@) matches Some(start) && says_position(start, r.start)
    &&& lookup(t->Object_0, "end"@) matches Some(end) && says_position(end, r.end)
}

/// The members of an object are found under their keys, and nothing is found
/// in anything else.
pub proof fn members_are_found(t: Tree, key: Seq<char>, v: Tree)
    ensures
        has(t, key, v) ==> t.get(key) == Some(v) && member(Some(t), key) == Some(v),
        has(t, key, v) && v is Str ==> member_text(Some(t), key) == Some(v->Str_0),
        has(t, key, v) && !(v is Str) ==> member_text(Some(t), key) is None,
        lacks(t, key) || !(t is Object) ==> {
            &&& t.get(key) is None
            &&& member(Some(t), key) is None
            &&& member_text(Some(t), key) is None
        },
        member(None, key) is None,
        member_text(None, key) is None,
{
}

/// Text and lists are what a value of that kind holds, and no other value has
/// any.
pub proof fn contents_by_kind(t: Tree)
    ensures
        t matches Tree::Str(s) ==> t.text() == Some(s),
        !(t is Str) ==> t.text() is None,
        t matches Tree::Array(items) ==> t.items() == Some(items),
        !(t is Array) ==> t.items() is None,
{
}

/// A number reads as the integer it is wherever that fits, and as none where it
/// does not.
pub proof fn numbers_read_as_they_are(u: u64, i: i64)
    ensures
        Tree::Number(Number::PosInt(u)).to_u64() == Some(u),
        u <= 0x7fff_ffff_ffff_ffff ==> {
            &&& Tree::Number(Number::PosInt(u)).to_i64() is Some
            &&& Tree::Number(Number::PosInt(u)).to_i64()->0 == u
        },
        u > 0x7fff_ffff_ffff_ffff ==> Tree::Number(Number::PosInt(u)).to_i64() is None,
        Tree::Number(Number::NegInt(i)).to_i64() == Some(i),
        Tree::Number(Number::NegInt(i)).to_u64() is None,
        Tree::Number(Number::Float).to_u64() is None,
        Tree::Number(Number::Float).to_i64() is None,
{
}

/// Only numbers read as integers.
pub proof fn other_values_are_no_numbers(t: Tree)
    requires
        !(t is Number),
    ensures
        t.to_u64() is None,
        t.to_i64() is None,
{
}

/// A position is read exactly as it is written, for all 32-bit coordinates.
pub proof fn positions_read_back(t: Tree, p: Position)
    requires
        says_position(t, p),
    ensures
        position_of(t) == Some(p),
{
    assert(low32(p.line as u64) == p.line);
    assert(low32(p.character as u64) == p.character);
}

/// What is read as a position is an object with two natural numbers that agree
/// with it in their low 32 bits.
pub proof fn positions_come_from_coordinates(t: Tree)
    ensures
        position_of(t) is Some <==> t is Object && (lookup(t->Object_0, "line"@) matches Some(
            Tree::Number(Number::PosInt(_)),
        )) && (lookup(t->Object_0, "character"@) matches Some(Tree::Number(Number::PosInt(_)))),
        position_of(t) matches Some(p) ==> {
            let line = lookup(t->Object_0, "line"@)->0->Number_0->PosInt_0;
            let character = lookup(t->Object_0, "character"@)->0->Number_0->PosInt_0;
            &&& p.line == line % 0x1_0000_0000
            &&& p.character == character % 0x1_0000_0000
        },
{
}

/// A range is read exactly as it is written.
pub proof fn ranges_read_back(t: Tree, r: Range)
    requires
        says_range(t, r),
    ensures
        range_of(t) == Some(r),
{
    positions_read_back(lookup(t->Object_0, "start"@)->0, r.start);
    positions_read_back(lookup(t->Object_0, "end"@)->0, r.end);
}

/// What is read as a range has a position at its start and one at its end.
pub proof fn ranges_need_both_ends(t: Tree)
    ensures
        range_of(t) is Some <==> t is Object && (lookup(t->Object_0, "start"@) matches Some(a)
            && position_of(a) is Some) && (lookup(t->Object_0, "end"@) matches Some(b)
            && position_of(b) is Some),
        range_of(t) matches Some(r) ==> {
            &&& position_of(lookup(t->Object_0, "start"@)->0) == Some(r.start)
            &&& position_of(lookup(t->Object_0, "end"@)->0) == Some(r.end)
        },
{
}

/// Keys are ordered as text: by the first character in which they differ, and
/// a proper prefix first.
pub proof fn keys_are_ordered_as_text(
    common: Seq<char>,
    a: Seq<char>,
    b: Seq<char>,
    x: char,
    y: char,
)
    requires
        (x as int) < (y as int),
    ensures
        key_before(common + seq![x] + a, common + seq![y] + b),
        !key_before(common + seq![y] + b, common + seq![x] + a),
        key_before(common, common + seq![x] + a),
        !key_before(common, common),
    decreases common.len(),
{
    let l = common + seq![x] + a;
    let r = common + seq![y] + b;
    if common.len() > 0 {
        let rest = common.drop_first();
        keys_are_ordered_as_text(rest, a, b, x, y);
        assert(l.drop_first() =~= rest + seq![x] + a);
        assert(r.drop_first() =~= rest + seq![y] + b);
        assert(l[0] == common[0] && r[0] == common[0]);
    } else {
        assert(l[0] == x && r[0] == y);
    }
}

/// A JSON value is seen as what it is built of, at every depth.
pub proof fn values_are_seen_as_built(j: Json)
    ensures
        j is Null ==> j@ == Tree::Null,
        j matches Json::Bool(b) ==> j@ == Tree::Bool(b),
        j matches Json::Number(n) ==> j@ == Tree::Number(n),
        j matches Json::Str(s) ==> j@ == Tree::Str(s@),
        j matches Json::Array(items) ==> {
            &&& j@ is Array
            &&& j@->Array_0.len() == items@.len()
            &&& forall|i: int| 0 <= i < items@.len() ==> #[trigger] j@->Array_0[i] == items@[i]@
        },
        j matches Json::Object(entries) ==> {
            &&& j@ is Object
            &&& j@->Object_0.len() == entries@.len()
            &&& forall|i: int|
                0 <= i < entries@.len() ==> (#[trigger] j@->Object_0[i]) == (
                    entries@[i].0@,
                    entries@[i].1@,
                )
        },
{
}

} // verus!
