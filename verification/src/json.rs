//! JSON values, built and written by the `serde_json` crate.
use vstd::prelude::*;

verus! {

/// A JSON value of the `serde_json` crate.
#[verifier::external_type_specification]
#[verifier::external_body]
pub struct ExValue(serde_json::Value);

/// What a JSON value holds.
pub enum Json {
    /// Null.
    Null,
    /// A truth value.
    Bool(bool),
    /// A whole number.
    Whole(int),
    /// Any other number, as the bit pattern of its double-precision value.
    Fraction(u64),
    /// A string.
    Text(Seq<char>),
    /// An array.
    List(Seq<Json>),
    /// An object, by the names of its members.
    Object(Map<Seq<char>, Json>),
}

/// What a value of the `serde_json` crate holds.
pub uninterp spec fn json_of(value: serde_json::Value) -> Json;

/// The compact text that the `serde_json` crate writes for what a value holds.
pub uninterp spec fn json_text(json: Json) -> Seq<char>;

/// No two of the names are the same.
pub open spec fn distinct_names(pairs: Seq<(&'static str, serde_json::Value)>) -> bool {
    forall|i: int, j: int|
        0 <= i < j < pairs.len() ==> (#[trigger] pairs[i]).0@ != (#[trigger] pairs[j]).0@
}

/// The members that a sequence of names and values makes up.
pub open spec fn members(pairs: Seq<(&'static str, serde_json::Value)>) -> Map<Seq<char>, Json>
    decreases pairs.len(),
{
    if pairs.len() == 0 {
        Map::empty()
    } else {
        members(pairs.drop_last()).insert(pairs.last().0@, json_of(pairs.last().1))
    }
}

/// Calls `serde_json::Value::from` on a truth value, which makes it that JSON
/// truth value.
#[verifier::external_body]
pub(crate) fn value_of_bool(flag: bool) -> (value: serde_json::Value)
    ensures
        json_of(value) == Json::Bool(flag),
{
    serde_json::Value::from(flag)
}

/// Calls `serde_json::Value::from` on a count, which makes it that JSON number.
#[verifier::external_body]
pub(crate) fn value_of_count(count: usize) -> (value: serde_json::Value)
    ensures
        json_of(value) == Json::Whole(count as int),
{
    serde_json::Value::from(count)
}

/// Calls `serde_json::Value::from` on text, which makes it the JSON string with
/// that text.
#[verifier::external_body]
pub(crate) fn value_of_text(text: String) -> (value: serde_json::Value)
    ensures
        json_of(value) == Json::Text(text@),
{
    serde_json::Value::from(text)
}

/// Calls `serde_json::Value::from` on values, which makes them a JSON array in
/// the same order.
#[verifier::external_body]
pub(crate) fn value_of_list(items: Vec<serde_json::Value>) -> (value: serde_json::Value)
    ensures
        json_of(value) == Json::List(items@.map_values(|item: serde_json::Value| json_of(item))),
{
    serde_json::Value::from(items)
}

/// Calls `serde_json::Value::from_iter` on names and values, which makes them
/// the members of a JSON object. Which of two members with one name it keeps is
/// left open, so no name may occur twice.
#[verifier::external_body]
pub(crate) fn value_of_members(
    pairs: Vec<(&'static str, serde_json::Value)>,
) -> (value: serde_json::Value)
    requires
        distinct_names(pairs@),
    ensures
        json_of(value) == Json::Object(members(pairs@)),
{
    serde_json::Value::from_iter(pairs)
}

/// Calls `to_string` on a `serde_json::Value`: compact JSON, the members of an
/// object in the order of their names, so that what the value holds determines
/// the text. Nothing is written between members and items but commas, and line
/// breaks in strings are escaped, so that the text is a single line.
#[verifier::external_body]
pub(crate) fn text_of_value(value: &serde_json::Value) -> (text: String)
    ensures
        text@ == json_text(json_of(*value)),
        !text@.contains('\n'),
{
    value.to_string()
}

/// The members of one pair.
pub(crate) proof fn lemma_members_1(pairs: Seq<(&'static str, serde_json::Value)>)
    requires
        pairs.len() == 1,
    ensures
        members(pairs) == Map::<Seq<char>, Json>::empty().insert(pairs[0].0@, json_of(pairs[0].1)),
{
    reveal_with_fuel(members, 2);
}

/// The members of two pairs.
pub(crate) proof fn lemma_members_2(pairs: Seq<(&'static str, serde_json::Value)>)
    requires
        pairs.len() == 2,
    ensures
        members(pairs) == Map::<Seq<char>, Json>::empty().insert(
            pairs[0].0@,
            json_of(pairs[0].1),
        ).insert(pairs[1].0@, json_of(pairs[1].1)),
{
    lemma_members_1(pairs.drop_last());
}

/// The members of three pairs.
pub(crate) proof fn lemma_members_3(pairs: Seq<(&'static str, serde_json::Value)>)
    requires
        pairs.len() == 3,
    ensures
        members(pairs) == Map::<Seq<char>, Json>::empty().insert(
            pairs[0].0@,
            json_of(pairs[0].1),
        ).insert(pairs[1].0@, json_of(pairs[1].1)).insert(pairs[2].0@, json_of(pairs[2].1)),
{
    lemma_members_2(pairs.drop_last());
}

/// The members are the pairs, and nothing else.
pub proof fn law_members_are_pairs(pairs: Seq<(&'static str, serde_json::Value)>)
    requires
        distinct_names(pairs),
    ensures
        forall|i: int|
            0 <= i < pairs.len() ==> members(pairs).dom().contains((#[trigger] pairs[i]).0@)
                && members(pairs)[pairs[i].0@] == json_of(pairs[i].1),
        forall|name: Seq<char>| #[trigger]
            members(pairs).dom().contains(name) ==> exists|i: int|
                0 <= i < pairs.len() && (#[trigger] pairs[i]).0@ == name,
    decreases pairs.len(),
{
    if pairs.len() > 0 {
        let fewer = pairs.drop_last();
        let last = pairs.len() - 1;
        assert(distinct_names(fewer));
        law_members_are_pairs(fewer);
        assert forall|i: int| 0 <= i < pairs.len() implies members(pairs).dom().contains(
            (#[trigger] pairs[i]).0@,
        ) && members(pairs)[pairs[i].0@] == json_of(pairs[i].1) by {
            if i < last {
                assert(fewer[i] == pairs[i]);
                assert(pairs[i].0@ != pairs[last].0@);
            }
        }
        assert forall|name: Seq<char>| #[trigger] members(pairs).dom().contains(name) implies exists|
            i: int,
        | 0 <= i < pairs.len() && (#[trigger] pairs[i]).0@ == name by {
            if name == pairs[last].0@ {
            } else {
                assert(members(fewer).dom().contains(name));
                let i = choose|i: int| 0 <= i < fewer.len() && (#[trigger] fewer[i]).0@ == name;
                assert(pairs[i].0@ == name);
            }
        }
    }
}

/// Names are distinct where no two places hold the same one.
pub proof fn law_distinct_names(pairs: Seq<(&'static str, serde_json::Value)>, i: int, j: int)
    requires
        distinct_names(pairs),
        0 <= i < pairs.len(),
        0 <= j < pairs.len(),
        pairs[i].0@ == pairs[j].0@,
    ensures
        i == j,
{
}

} // verus!
