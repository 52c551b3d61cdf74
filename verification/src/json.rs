//! JSON values, as plain values.

use vstd::prelude::*;

use crate::text;
use crate::view::Real;

verus! {

/// A parsed JSON value of the `serde_json` crate.
#[verifier::external_type_specification]
#[verifier::external_body]
pub struct ExValue(serde_json::Value);

/// A JSON number, as far as it is one of each kind.
#[derive(Debug, Clone, Copy, PartialEq, Eq, Structural)]
pub struct Number {
    /// The number, if it was written as an integer that is not negative and fits.
    pub natural: Option<u64>,
    /// The number, if it was written as an integer that fits.
    pub integer: Option<i64>,
    /// The number as a double.
    pub real: Option<Real>,
}

/// A JSON value.
#[derive(Debug)]
pub enum Json {
    Null,
    Truth(bool),
    Number(Number),
    Text(String),
    List(Vec<Json>),
    /// The members, each key once.
    Object(Vec<(String, Json)>),
}

/// A JSON value, by its texts.
#[verifier::ext_equal]
pub enum JsonView {
    Null,
    Truth(bool),
    Number(Number),
    Text(Seq<char>),
    List(Seq<JsonView>),
    Object(Seq<(Seq<char>, JsonView)>),
}

impl View for Json {
    type V = JsonView;

    open spec fn view(&self) -> JsonView
        decreases self,
    {
        match self {
            Json::Null => JsonView::Null,
            Json::Truth(truth) => JsonView::Truth(*truth),
            Json::Number(number) => JsonView::Number(*number),
            Json::Text(text) => JsonView::Text(text@),
            Json::List(items) => JsonView::List(
                Seq::new(
                    items@.len(),
                    |i: int|
                        if 0 <= i < items@.len() {
                            items@[i].view()
                        } else {
                            arbitrary()
                        },
                ),
            ),
            Json::Object(members) => JsonView::Object(
                Seq::new(
                    members@.len(),
                    |i: int|
                        if 0 <= i < members@.len() {
                            (members@[i].0@, members@[i].1.view())
                        } else {
                            arbitrary()
                        },
                ),
            ),
        }
    }
}

/// What [`serde_json::from_str`] makes of a text: a value, or a complaint in words.
pub uninterp spec fn parsed(source: Seq<char>) -> Result<serde_json::Value, Seq<char>>;

/// What a [`serde_json::Value`] holds.
pub uninterp spec fn contents(value: serde_json::Value) -> JsonView;

/// [`serde_json::from_str`], with its error in words. What it makes of a text depends on the
/// text alone; which texts are JSON is left to it.
#[verifier::external_body]
fn from_text(source: &str) -> (value: Result<serde_json::Value, String>)
    ensures
        match value {
            Ok(value) => parsed(source@) == Ok::<serde_json::Value, Seq<char>>(value),
            Err(complaint) => parsed(source@) == Err::<serde_json::Value, Seq<char>>(complaint@),
        },
{
    serde_json::from_str(source).map_err(|error| error.to_string())
}

/// The same value as plain values, member by member. A number is asked for itself as an
/// integer of either kind and as a double, which [`serde_json::Number`] answers.
#[verifier::external_body]
fn plain(value: serde_json::Value) -> (json: Json)
    ensures
        json@ == contents(value),
{
    match value {
        serde_json::Value::Null => Json::Null,
        serde_json::Value::Bool(truth) => Json::Truth(truth),
        serde_json::Value::Number(number) => {
            let double = number.as_f64().map(|value| Real { bits: value.to_bits() });
            Json::Number(Number { natural: number.as_u64(), integer: number.as_i64(), real: double })
        },
        serde_json::Value::String(text) => Json::Text(text),
        serde_json::Value::Array(items) => Json::List(items.into_iter().map(plain).collect()),
        serde_json::Value::Object(members) => Json::Object(
            members.into_iter().map(|(key, member)| (key, plain(member))).collect(),
        ),
    }
}

/// What a text holds as JSON, or a complaint in words.
pub open spec fn read(source: Seq<char>) -> Result<JsonView, Seq<char>> {
    match parsed(source) {
        Ok(value) => Ok(contents(value)),
        Err(complaint) => Err(complaint),
    }
}

/// Reads a text as JSON.
pub fn parse(source: &str) -> (json: Result<Json, String>)
    ensures
        match json {
            Ok(json) => read(source@) == Ok::<JsonView, Seq<char>>(json@),
            Err(complaint) => read(source@) == Err::<JsonView, Seq<char>>(complaint@),
        },
{
    match from_text(source) {
        Ok(value) => Ok(plain(value)),
        Err(complaint) => Err(complaint),
    }
}

/// The member called `key`, if there is one.
pub open spec fn member(members: Seq<(Seq<char>, JsonView)>, key: Seq<char>) -> Option<JsonView>
    decreases members.len(),
{
    if members.len() == 0 {
        None
    } else if members.first().0 == key {
        Some(members.first().1)
    } else {
        member(members.drop_first(), key)
    }
}

/// The members as the view of an object has them.
pub open spec fn members_in(members: Seq<(String, Json)>) -> Seq<(Seq<char>, JsonView)> {
    Seq::new(members.len(), |i: int| (members[i].0@, members[i].1@))
}

/// The members that an object's view has are those of the object.
pub proof fn lemma_members(members: Vec<(String, Json)>)
    ensures
        Json::Object(members)@ == JsonView::Object(members_in(members@)),
{
    reveal_with_fuel(<Json as View>::view, 2);
    assert(Json::Object(members)@->Object_0 =~= members_in(members@));
}

/// The items that a list's view has are those of the list.
pub proof fn lemma_items(items: Vec<Json>)
    ensures
        Json::List(items)@ == JsonView::List(items@.map_values(|item: Json| item@)),
{
    reveal_with_fuel(<Json as View>::view, 2);
    assert(Json::List(items)@->List_0 =~= items@.map_values(|item: Json| item@));
}

/// The member called `key`, if there is one.
pub fn find<'a>(members: &'a [(String, Json)], key: &str) -> (found: Option<&'a Json>)
    ensures
        match found {
            Some(json) => member(members_in(members@), key@) == Some(json@),
            None => member(members_in(members@), key@) is None,
        },
{
    let ghost all = members_in(members@);
    let mut i: usize = 0;
    proof {
        assert(all.skip(0) =~= all);
    }
    while i < members.len()
        invariant
            i <= members.len(),
            all == members_in(members@),
            member(all, key@) == member(all.skip(i as int), key@),
        decreases members.len() - i,
    {
        proof {
            assert(all.skip(i as int).first() == all[i as int]);
            assert(all.skip(i as int).drop_first() =~= all.skip(i + 1));
        }
        if text::same_text(members[i].0.as_str(), key) {
            return Some(&members[i].1);
        }
        i += 1;
    }
    None
}

} // verus!
