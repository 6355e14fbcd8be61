//! The JSON value tree of serde_json, its mathematical model, and the calls
//! that build, take apart, print and parse it.
use vstd::prelude::*;

verus! {

#[verifier::external_type_specification]
#[verifier::external_body]
pub struct ExValue(serde_json::Value);

#[verifier::external_type_specification]
#[verifier::external_body]
pub struct ExNumber(serde_json::Number);

#[verifier::external_type_specification]
#[verifier::external_body]
#[verifier::reject_recursive_types(K)]
#[verifier::reject_recursive_types(V)]
pub struct ExMap<K, V>(serde_json::Map<K, V>);

/// The model of a JSON document. A number that reads as a 64-bit signed
/// integer is `Int`; every other number is `Float`, carried as it is.
/// Object members keep their order.
pub ghost enum JsonView {
    Null,
    Bool(bool),
    Int(i64),
    Float(serde_json::Number),
    Str(Seq<char>),
    Array(Seq<JsonView>),
    Object(Seq<(Seq<char>, JsonView)>),
}

/// What a `serde_json::Value` holds.
pub uninterp spec fn value_tree(v: serde_json::Value) -> JsonView;

/// The members of a `serde_json::Map`, in its order (insertion order, under
/// the `preserve_order` feature); its keys are distinct.
pub uninterp spec fn map_members(m: serde_json::Map<String, serde_json::Value>) -> Seq<
    (Seq<char>, JsonView),
>;

/// What `serde_json::Number::as_i64` returns for a number.
pub uninterp spec fn number_int(n: serde_json::Number) -> Option<i64>;

/// The text that `serde_json::to_string` prints for a tree.
pub uninterp spec fn compact_text(t: JsonView) -> Seq<char>;

/// The text that serde_json's pretty printer prints for a tree, with the given
/// number of spaces per level.
pub uninterp spec fn pretty_text(t: JsonView, indent: nat) -> Seq<char>;

/// The tree that `serde_json::from_str` reads from a text, if it accepts the
/// text as one JSON document.
pub uninterp spec fn parsed_tree(s: Seq<char>) -> Option<JsonView>;

/// The model of a number as the tree holds it.
pub open spec fn number_view(n: serde_json::Number) -> JsonView {
    match number_int(n) {
        Some(i) => JsonView::Int(i),
        None => JsonView::Float(n),
    }
}

/// Whether no two members share a key.
pub open spec fn keys_distinct<V>(s: Seq<(Seq<char>, V)>) -> bool {
    forall|i: int, j: int| 0 <= i < j < s.len() ==> s[i].0 != s[j].0
}

/// The models of the members of an object under construction.
pub open spec fn members_view(s: Seq<(String, serde_json::Value)>) -> Seq<(Seq<char>, JsonView)> {
    s.map_values(|p: (String, serde_json::Value)| (p.0@, value_tree(p.1)))
}

/// Where key `k` stands among the members, if it does.
pub open spec fn key_index(s: Seq<(Seq<char>, JsonView)>, k: Seq<char>) -> Option<int> {
    if exists|i: int| 0 <= i < s.len() && s[i].0 == k {
        Some(choose|i: int| 0 <= i < s.len() && s[i].0 == k)
    } else {
        None
    }
}

/// One member written into an object: a key already there keeps its place and
/// takes the new value; a new key goes last.
pub open spec fn put_member(acc: Seq<(Seq<char>, JsonView)>, m: (Seq<char>, JsonView)) -> Seq<
    (Seq<char>, JsonView),
> {
    match key_index(acc, m.0) {
        Some(i) => acc.update(i, m),
        None => acc.push(m),
    }
}

/// One level of a JSON value: its kind, with the children still as values.
pub enum Node {
    Null,
    Bool(bool),
    Number(serde_json::Number),
    Str(String),
    Array(Vec<serde_json::Value>),
    Object(serde_json::Map<String, serde_json::Value>),
}

/// Relies on `serde_json::Value::Null`.
#[verifier::external_body]
pub(crate) fn value_null() -> (r: serde_json::Value)
    ensures
        value_tree(r) == JsonView::Null,
{
    serde_json::Value::Null
}

/// Relies on `serde_json::Value::Bool`.
#[verifier::external_body]
pub(crate) fn value_bool(b: bool) -> (r: serde_json::Value)
    ensures
        value_tree(r) == JsonView::Bool(b),
{
    serde_json::Value::Bool(b)
}

/// Relies on `From<i64> for serde_json::Value`: the number reads back as `i`.
#[verifier::external_body]
pub(crate) fn value_int(i: i64) -> (r: serde_json::Value)
    ensures
        value_tree(r) == JsonView::Int(i),
{
    serde_json::Value::from(i)
}

/// Relies on `serde_json::Value::Number`, holding a copy of the number.
#[verifier::external_body]
pub(crate) fn value_number(n: &serde_json::Number) -> (r: serde_json::Value)
    ensures
        value_tree(r) == number_view(*n),
{
    serde_json::Value::Number(n.clone())
}

/// Relies on `serde_json::Value::String`.
#[verifier::external_body]
pub(crate) fn value_string(s: String) -> (r: serde_json::Value)
    ensures
        value_tree(r) == JsonView::Str(s@),
{
    serde_json::Value::String(s)
}

/// Relies on `serde_json::Value::Array`: the elements keep their order.
#[verifier::external_body]
pub(crate) fn value_array(items: Vec<serde_json::Value>) -> (r: serde_json::Value)
    ensures
        value_tree(r) == JsonView::Array(items@.map_values(|x: serde_json::Value| value_tree(x))),
{
    serde_json::Value::Array(items)
}

/// Relies on `serde_json::Map::new`: an empty map.
#[verifier::external_body]
pub(crate) fn map_new() -> (r: serde_json::Map<String, serde_json::Value>)
    ensures
        map_members(r) == Seq::<(Seq<char>, JsonView)>::empty(),
{
    serde_json::Map::new()
}

/// Relies on `serde_json::Map::insert`, which under `preserve_order` is
/// `IndexMap::insert`: a key already present keeps its place and takes the new
/// value; a new key goes last.
#[verifier::external_body]
pub(crate) fn map_insert(m: &mut serde_json::Map<String, serde_json::Value>, k: String, v: serde_json::Value)
    ensures
        map_members(*final(m)) == put_member(map_members(*old(m)), (k@, value_tree(v))),
{
    m.insert(k, v);
}

/// Relies on `serde_json::Map::get`: the value stored under the key, if any.
#[verifier::external_body]
pub(crate) fn map_get<'a>(m: &'a serde_json::Map<String, serde_json::Value>, k: &str) -> (r: Option<
    &'a serde_json::Value,
>)
    ensures
        match key_index(map_members(*m), k@) {
            Some(i) => r matches Some(x) && value_tree(*x) == map_members(*m)[i].1,
            None => r is None,
        },
{
    m.get(k)
}

/// Relies on iterating a `serde_json::Map` by value, which yields its members
/// in its order.
#[verifier::external_body]
pub(crate) fn map_entries(m: serde_json::Map<String, serde_json::Value>) -> (r: Vec<
    (String, serde_json::Value),
>)
    ensures
        members_view(r@) == map_members(m),
{
    m.into_iter().collect()
}

/// Relies on `serde_json::Value::Object`.
#[verifier::external_body]
pub(crate) fn value_object(m: serde_json::Map<String, serde_json::Value>) -> (r: serde_json::Value)
    ensures
        value_tree(r) == JsonView::Object(map_members(m)),
{
    serde_json::Value::Object(m)
}

/// Relies on the variants of `serde_json::Value`.
#[verifier::external_body]
pub(crate) fn value_node(v: serde_json::Value) -> (r: Node)
    ensures
        match r {
            Node::Null => value_tree(v) == JsonView::Null,
            Node::Bool(b) => value_tree(v) == JsonView::Bool(b),
            Node::Number(n) => value_tree(v) == number_view(n),
            Node::Str(s) => value_tree(v) == JsonView::Str(s@),
            Node::Array(items) => value_tree(v) == JsonView::Array(
                items@.map_values(|x: serde_json::Value| value_tree(x)),
            ),
            Node::Object(m) => value_tree(v) == JsonView::Object(map_members(m)),
        },
{
    match v {
        serde_json::Value::Null => Node::Null,
        serde_json::Value::Bool(b) => Node::Bool(b),
        serde_json::Value::Number(n) => Node::Number(n),
        serde_json::Value::String(s) => Node::Str(s),
        serde_json::Value::Array(items) => Node::Array(items),
        serde_json::Value::Object(m) => Node::Object(m),
    }
}

/// Relies on `serde_json::Value::as_str`, copied into a `String`.
#[verifier::external_body]
pub(crate) fn value_as_str(v: &serde_json::Value) -> (r: Option<String>)
    ensures
        match value_tree(*v) {
            JsonView::Str(t) => r is Some && r->0@ == t,
            _ => r is None,
        },
{
    v.as_str().map(|s| s.to_string())
}

/// Relies on `serde_json::Number::as_i64`.
#[verifier::external_body]
pub(crate) fn number_as_i64(n: &serde_json::Number) -> (r: Option<i64>)
    ensures
        r == number_int(*n),
{
    n.as_i64()
}

/// Relies on `serde_json::to_string`, compact printing of a tree. Printing a
/// `Value` into a `Vec` does not fail: its map keys are strings and writing to
/// memory has no error.
#[verifier::external_body]
pub(crate) fn print_compact(v: &serde_json::Value) -> (r: Option<String>)
    ensures
        r is Some,
        r->0@ == compact_text(value_tree(*v)),
{
    serde_json::to_string(v).ok()
}

/// Relies on `serde_json::ser::PrettyFormatter::with_indent`, which puts
/// `indent` spaces per level, and on serde_json's serializer writing UTF-8.
/// As with `print_compact`, printing a `Value` into a `Vec` does not fail.
#[verifier::external_body]
pub(crate) fn print_pretty(v: &serde_json::Value, indent: usize) -> (r: Option<String>)
    ensures
        r is Some,
        r->0@ == pretty_text(value_tree(*v), indent as nat),
{
    let spaces = vec![b' '; indent];
    let formatter = serde_json::ser::PrettyFormatter::with_indent(&spaces);
    let mut ser = serde_json::Serializer::with_formatter(Vec::new(), formatter);
    serde::Serialize::serialize(v, &mut ser).ok()?;
    String::from_utf8(ser.into_inner()).ok()
}

/// Relies on `serde_json::from_str` into a `serde_json::Value`; on failure,
/// the parser's message.
#[verifier::external_body]
pub(crate) fn parse_text(s: &str) -> (r: Result<serde_json::Value, String>)
    ensures
        r is Ok <==> parsed_tree(s@) is Some,
        r matches Ok(v) ==> parsed_tree(s@) == Some(value_tree(v)),
{
    serde_json::from_str::<serde_json::Value>(s).map_err(|e| e.to_string())
}

} // verus!
