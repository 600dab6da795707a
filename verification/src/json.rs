//! JSON documents, written by `serde_json`.

use vstd::prelude::*;

verus! {

/// A JSON value as `serde_json` holds it.
#[verifier::external_type_specification]
#[verifier::external_body]
pub struct ExValue(serde_json::Value);

/// A JSON number as `serde_json` holds it.
#[verifier::external_type_specification]
#[verifier::external_body]
pub struct ExNumber(serde_json::Number);

/// What a JSON value holds.
pub enum Tree {
    /// `null`.
    Null,
    /// A number.
    Number(serde_json::Number),
    /// A string.
    Text(Seq<char>),
    /// An array.
    List(Seq<Tree>),
    /// An object.
    Object(Map<Seq<char>, Tree>),
}

/// What `value` holds.
pub uninterp spec fn tree_of(value: serde_json::Value) -> Tree;

/// The compact JSON text that `serde_json` writes for a value.
pub uninterp spec fn json_text(tree: Tree) -> Seq<u8>;

/// The number that `serde_json` reads from `text`.
pub uninterp spec fn number_of(text: Seq<char>) -> Option<serde_json::Number>;

/// The number that `serde_json` makes of the whole number `n`.
pub uninterp spec fn number_from(n: nat) -> serde_json::Number;

/// A whole number.
pub open spec fn whole(n: nat) -> Tree {
    Tree::Number(number_from(n))
}

/// What a list of values holds.
pub open spec fn trees_of(values: Seq<serde_json::Value>) -> Seq<Tree> {
    values.map_values(|v: serde_json::Value| tree_of(v))
}

/// What a list of fields holds; of fields with the same key, the last.
pub open spec fn fields_of(fields: Seq<(String, serde_json::Value)>) -> Map<Seq<char>, Tree>
    decreases fields.len(),
{
    if fields.len() == 0 {
        Map::empty()
    } else {
        fields_of(fields.drop_last()).insert(fields.last().0@, tree_of(fields.last().1))
    }
}

/// A number that may be missing.
pub open spec fn optional(n: Option<serde_json::Number>) -> Tree {
    match n {
        Some(n) => Tree::Number(n),
        None => Tree::Null,
    }
}

/// A whole number that may be missing.
pub open spec fn optional_uint(n: Option<u32>) -> Tree {
    match n {
        Some(n) => whole(n as nat),
        None => Tree::Null,
    }
}

/// One digit, a point, one digit.
pub open spec fn one_decimal(text: Seq<char>) -> bool {
    text.len() == 3 && crate::text::is_digit(text[0]) && text[1] == '.' && crate::text::is_digit(
        text[2],
    )
}

/// `serde_json::Value::Null`.
#[verifier::external_body]
pub(crate) fn null() -> (v: serde_json::Value)
    ensures
        tree_of(v) == Tree::Null,
{
    serde_json::Value::Null
}

/// `serde_json::Value::from` a `u64`: the `Value::Number` of the number that
/// `serde_json` makes of it, which depends on the whole number alone.
#[verifier::external_body]
pub(crate) fn uint(n: u64) -> (v: serde_json::Value)
    ensures
        tree_of(v) == Tree::Number(number_from(n as nat)),
{
    serde_json::Value::from(n)
}

/// `serde_json::Value::Number` of a copy of `n`.
#[verifier::external_body]
pub(crate) fn number(n: &serde_json::Number) -> (v: serde_json::Value)
    ensures
        tree_of(v) == Tree::Number(*n),
{
    serde_json::Value::Number(n.clone())
}

/// `serde_json::Value::from` a string: its characters.
#[verifier::external_body]
pub(crate) fn text(s: &str) -> (v: serde_json::Value)
    ensures
        tree_of(v) == Tree::Text(s@),
{
    serde_json::Value::from(s)
}

/// `serde_json::Value::Array` of the values, in order.
#[verifier::external_body]
pub(crate) fn list(values: Vec<serde_json::Value>) -> (v: serde_json::Value)
    ensures
        tree_of(v) == Tree::List(trees_of(values@)),
{
    serde_json::Value::Array(values)
}

/// `serde_json::Value::Object` collected from fields; of fields with the same
/// key, the last stays.
#[verifier::external_body]
pub(crate) fn object(fields: Vec<(String, serde_json::Value)>) -> (v: serde_json::Value)
    ensures
        tree_of(v) == Tree::Object(fields_of(fields@)),
{
    serde_json::Value::Object(fields.into_iter().collect())
}

/// `serde_json::to_vec`: the text depends on what the value holds alone. It
/// fails only for maps whose keys are no strings, which a value cannot hold.
#[verifier::external_body]
pub(crate) fn to_bytes(value: &serde_json::Value) -> (out: Vec<u8>)
    ensures
        out@ == json_text(tree_of(*value)),
{
    serde_json::to_vec(value).unwrap_or_default()
}

/// `serde_json::from_str` to a number: depends on the text alone, and reads
/// every number of one digit, a point and one digit.
#[verifier::external_body]
pub(crate) fn parse_number(text: &str) -> (n: Option<serde_json::Number>)
    ensures
        n == number_of(text@),
        one_decimal(text@) ==> n is Some,
{
    serde_json::from_str(text).ok()
}

/// A number, or `null` where there is none.
pub(crate) fn optional_number(n: &Option<serde_json::Number>) -> (v: serde_json::Value)
    ensures
        tree_of(v) == optional(*n),
{
    match n {
        Some(n) => number(n),
        None => null(),
    }
}

/// Append one field.
pub(crate) fn field(
    fields: &mut Vec<(String, serde_json::Value)>,
    key: &str,
    value: serde_json::Value,
)
    ensures
        fields_of(final(fields)@) == fields_of(old(fields)@).insert(key@, tree_of(value)),
{
    let ghost before = fields@;
    fields.push((key.to_owned(), value));
    assert(fields@.drop_last() =~= before);
}

/// The list of one value.
pub(crate) fn singleton(value: serde_json::Value) -> (v: serde_json::Value)
    ensures
        tree_of(v) == Tree::List(seq![tree_of(value)]),
{
    let mut values: Vec<serde_json::Value> = Vec::new();
    values.push(value);
    assert(trees_of(values@) =~= seq![tree_of(value)]);
    list(values)
}

/// A number that is there is written as that number, one that is missing as
/// `null`; a whole number as the number that is made of it.
pub proof fn law_missing_numbers_are_null(n: Option<serde_json::Number>, k: Option<u32>)
    ensures
        n is Some ==> optional(n) == Tree::Number(n->0),
        n is None ==> optional(n) is Null,
        k is Some ==> optional_uint(k) == Tree::Number(number_from(k->0 as nat)),
        k is None ==> optional_uint(k) is Null,
{
}

} // verus!
