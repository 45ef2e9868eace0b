//! The JSON values of `serde_json`, as the signaling protocol uses them.
//!
//! The functions and declared types here are trusted: their contracts restate
//! what `serde_json` 1.0 does and nothing in this crate proves them.

use serde::Serializer;
use serde_json::Value;
use vstd::prelude::*;

verus! {

/// A JSON value of `serde_json`. Nothing is known of it but what the names
/// below say.
#[verifier::external_type_specification]
#[verifier::external_body]
pub struct ExValue(serde_json::Value);

/// The member table of a JSON object under construction.
#[verifier::external_type_specification]
#[verifier::external_body]
#[verifier::reject_recursive_types(K)]
#[verifier::reject_recursive_types(V)]
pub struct ExJsonMap<K, V>(serde_json::Map<K, V>);

/// What `serde_json::from_str::<Value>` reads from a text: `None` where it
/// reports an error.
pub uninterp spec fn json_parse(text: Seq<char>) -> Option<Value>;

/// What indexing a value by a string key gives: the member of that name, or
/// the null value where the value is no object or has no such member.
pub uninterp spec fn json_field(value: Value, key: Seq<char>) -> Value;

/// What `Value::as_str` gives: the characters of a string value.
pub uninterp spec fn json_as_str(value: Value) -> Option<Seq<char>>;

/// What `Value::as_u64` gives: a number value that is an integer from 0 to
/// `u64::MAX`.
pub uninterp spec fn json_as_u64(value: Value) -> Option<u64>;

/// The compact text that `Value::to_string` writes.
pub uninterp spec fn json_text(value: Value) -> Seq<char>;

/// The members that a table under construction holds.
pub uninterp spec fn json_members(members: serde_json::Map<String, Value>) -> Map<Seq<char>, Value>;

/// The object value with the given members.
pub uninterp spec fn json_object(members: Map<Seq<char>, Value>) -> Value;

/// The string value with the given characters.
pub uninterp spec fn json_string(text: Seq<char>) -> Value;

/// The value of an optional number: null for `None`.
pub uninterp spec fn json_optional_number(n: Option<u32>) -> Value;

/// Whether a value is a string, a 32-bit number or null.
pub open spec fn is_scalar(value: Value) -> bool {
    ||| exists|text: Seq<char>| value == #[trigger] json_string(text)
    ||| exists|n: Option<u32>| value == #[trigger] json_optional_number(n)
}

/// Whether the text of a value reads as that value again. It does not for
/// every value: reading has a limit on nesting, and rounds some fractions.
pub open spec fn reads_back(value: Value) -> bool {
    json_parse(json_text(value)) == Some(value)
}

/// Whether every one of some members is a string, a 32-bit number or null.
pub open spec fn all_scalar(members: Map<Seq<char>, Value>) -> bool {
    forall|key: Seq<char>| #[trigger] members.contains_key(key) ==> is_scalar(members[key])
}

/// The members of an object under construction, in order.
pub open spec fn pair_views(pairs: Seq<(&'static str, Value)>) -> Seq<(Seq<char>, Value)> {
    Seq::new(pairs.len(), |i: int| (pairs[i].0@, pairs[i].1))
}

/// Whether no two members have the same name.
pub open spec fn names_differ(pairs: Seq<(Seq<char>, Value)>) -> bool {
    forall|i: int, j: int|
        0 <= i < j < pairs.len() ==> (#[trigger] pairs[i]).0 != (#[trigger] pairs[j]).0
}

/// The members by name.
pub open spec fn pairs_map(pairs: Seq<(Seq<char>, Value)>) -> Map<Seq<char>, Value>
    decreases pairs.len(),
{
    if pairs.len() == 0 {
        Map::empty()
    } else {
        pairs_map(pairs.drop_last()).insert(pairs.last().0, pairs.last().1)
    }
}

/// The text of some members: each name and value, with commas between.
pub open spec fn members_text(pairs: Seq<(Seq<char>, Value)>) -> Seq<char>
    decreases pairs.len(),
{
    if pairs.len() == 0 {
        Seq::empty()
    } else {
        let member = json_text(json_string(pairs.last().0)) + ":"@ + json_text(pairs.last().1);
        if pairs.len() == 1 {
            member
        } else {
            members_text(pairs.drop_last()) + ","@ + member
        }
    }
}

/// The text of an object with these members, in this order.
pub open spec fn pairs_text(pairs: Seq<(Seq<char>, Value)>) -> Seq<char> {
    "{"@ + members_text(pairs) + "}"@
}

/// Whether reading the members of a value gives these: by the name of one of
/// them that member, by any other name null, which is neither a string nor a
/// number.
pub open spec fn holds_members(value: Value, members: Map<Seq<char>, Value>) -> bool {
    &&& forall|key: Seq<char>| #[trigger]
        members.contains_key(key) ==> json_field(value, key) == members[key]
    &&& forall|key: Seq<char>|
        !members.contains_key(key) ==> json_as_str(#[trigger] json_field(value, key)) is None
            && json_as_u64(json_field(value, key)) is None
}

/// The members by name are those of the list, where no two names are the same.
pub proof fn lemma_pairs_map(pairs: Seq<(Seq<char>, Value)>)
    ensures
        forall|key: Seq<char>| #[trigger]
            pairs_map(pairs).contains_key(key) ==> exists|i: int|
                0 <= i < pairs.len() && (#[trigger] pairs[i]).0 == key && pairs_map(pairs)[key]
                    == pairs[i].1,
        names_differ(pairs) ==> forall|i: int|
            0 <= i < pairs.len() ==> pairs_map(pairs).contains_key((#[trigger] pairs[i]).0)
                && pairs_map(pairs)[pairs[i].0] == pairs[i].1,
    decreases pairs.len(),
{
    if pairs.len() > 0 {
        let init = pairs.drop_last();
        let last = pairs.len() - 1;
        lemma_pairs_map(init);
        assert forall|key: Seq<char>| #[trigger]
            pairs_map(pairs).contains_key(key) implies exists|i: int|
            0 <= i < pairs.len() && (#[trigger] pairs[i]).0 == key && pairs_map(pairs)[key]
                == pairs[i].1 by {
            if key == pairs[last].0 {
            } else {
                assert(pairs_map(init).contains_key(key));
                let i = choose|i: int|
                    0 <= i < init.len() && (#[trigger] init[i]).0 == key && pairs_map(init)[key]
                        == init[i].1;
                assert(pairs[i] == init[i]);
            }
        }
        if names_differ(pairs) {
            assert forall|i: int, j: int| 0 <= i < j < init.len() implies (#[trigger] init[i]).0
                != (#[trigger] init[j]).0 by {
                assert(init[i] == pairs[i] && init[j] == pairs[j]);
            }
            assert forall|i: int| 0 <= i < pairs.len() implies pairs_map(pairs).contains_key(
                (#[trigger] pairs[i]).0,
            ) && pairs_map(pairs)[pairs[i].0] == pairs[i].1 by {
                if i < last {
                    assert(init[i] == pairs[i]);
                    assert(pairs[i].0 != pairs[last].0);
                }
            }
        }
    }
}

/// `serde_json::from_str::<Value>`: reads one JSON value. The result is a
/// function of the text alone, and the error is not kept.
#[verifier::external_body]
pub(crate) fn parse(text: &str) -> (r: Option<Value>)
    ensures
        r == json_parse(text@),
{
    serde_json::from_str(text).ok()
}

/// `Value::index` with a string key. It never fails: a missing member reads
/// as null, which is neither a string nor a number.
#[verifier::external_body]
pub(crate) fn field<'a>(value: &'a Value, key: &str) -> (r: &'a Value)
    ensures
        *r == json_field(*value, key@),
{
    &value[key]
}

/// `Value::as_str`, with the characters copied out.
#[verifier::external_body]
pub(crate) fn as_text(value: &Value) -> (r: Option<String>)
    ensures
        r is Some == json_as_str(*value) is Some,
        r matches Some(s) ==> Some(s@) == json_as_str(*value),
{
    value.as_str().map(|s| s.to_owned())
}

/// `Value::as_u64`.
#[verifier::external_body]
pub(crate) fn as_number(value: &Value) -> (r: Option<u64>)
    ensures
        r == json_as_u64(*value),
{
    value.as_u64()
}

/// `Value::clone`: the same value again.
#[verifier::external_body]
pub(crate) fn copy(value: &Value) -> (r: Value)
    ensures
        r == *value,
{
    value.clone()
}

/// `Value::to_string`: the compact JSON text of a value.
#[verifier::external_body]
pub(crate) fn to_text(value: &Value) -> (r: String)
    ensures
        r@ == json_text(*value),
{
    value.to_string()
}

/// `serde_json::Map::new`: a table with no members.
#[verifier::external_body]
pub(crate) fn no_members() -> (r: serde_json::Map<String, Value>)
    ensures
        (json_members(r) == Map::<Seq<char>, Value>::empty()),
{
    serde_json::Map::new()
}

/// `serde_json::Map::insert`: adds a member, replacing one of the same name.
#[verifier::external_body]
pub(crate) fn add_member(members: &mut serde_json::Map<String, Value>, key: &str, value: Value)
    ensures
        json_members(*final(members)) == json_members(*old(members)).insert(key@, value),
{
    members.insert(key.to_owned(), value);
}

/// `Value::Object`: an object value. Indexing it by the name of one of its
/// members gives that member; indexing it by another name gives null, which
/// is neither a string nor a number. Where every member is a string, a number
/// or null, `serde_json::from_str` reads the object back from its text.
#[verifier::external_body]
pub(crate) fn object(members: serde_json::Map<String, Value>) -> (r: Value)
    ensures
        r == json_object(json_members(members)),
        holds_members(r, json_members(members)),
        all_scalar(json_members(members)) ==> reads_back(r),
{
    Value::Object(members)
}

/// `collect_map` of `serde_json::Serializer`: the compact text of an object
/// with these members, in this order. Where no two have the same name and
/// every one is a string, a number or null, `serde_json::from_str` reads the
/// object back. Where it does, indexing what was read gives the members.
#[verifier::external_body]
pub(crate) fn object_text(members: &Vec<(&'static str, Value)>) -> (r: String)
    ensures
        r@ == pairs_text(pair_views(members@)),
        names_differ(pair_views(members@)) && all_scalar(pairs_map(pair_views(members@)))
            ==> json_parse(r@) == Some(json_object(pairs_map(pair_views(members@)))),
        (match json_parse(r@) {
            Some(value) => value == json_object(pairs_map(pair_views(members@)))
                ==> holds_members(value, pairs_map(pair_views(members@))),
            None => true,
        }),
{
    let mut bytes: Vec<u8> = Vec::new();
    serde_json::Serializer::new(&mut bytes)
        .collect_map(members.iter().map(|(name, value)| (name, value)))
        .expect("writing to memory does not fail");
    String::from_utf8(bytes).expect("JSON text is UTF-8")
}

/// `Value::from` of a string. Reading it as a string gives the same
/// characters.
#[verifier::external_body]
pub(crate) fn string(text: &str) -> (r: Value)
    ensures
        r == json_string(text@),
        json_as_str(r) == Some(text@),
        json_as_u64(r) is None,
{
    Value::from(text)
}

/// `Value::from` of an optional number: null for `None`. Reading it as a
/// number gives the same number.
#[verifier::external_body]
pub(crate) fn optional_number(n: Option<u32>) -> (r: Value)
    ensures
        r == json_optional_number(n),
        json_as_str(r) is None,
        json_as_u64(r) == (match n {
            Some(k) => Some(k as u64),
            None => None,
        }),
{
    Value::from(n)
}

} // verus!
