use vstd::prelude::*;

verus! {

#[verifier::external_type_specification]
#[verifier::external_body]
pub struct ExJsonValue(tinyjson::JsonValue);

#[verifier::external_type_specification]
#[verifier::external_body]
pub struct ExJsonParseError(tinyjson::JsonParseError);

/// A JSON value as mathematics sees it. A number is held by the bits of
/// its IEEE 754 double; an object maps each key to its value.
pub enum JsonModel {
    Null,
    Boolean(bool),
    Number(u64),
    Str(Seq<char>),
    Array(Seq<JsonModel>),
    Object(Map<Seq<char>, JsonModel>),
}

/// A parsed JSON value. An object lists its members; where a key occurs
/// more than once, the last occurrence is the one that counts.
#[derive(Debug)]
pub enum Json {
    Null,
    Boolean(bool),
    Number(u64),
    Str(String),
    Array(Vec<Json>),
    Object(Vec<(String, Json)>),
}

/// The model of a list of JSON values, element by element.
pub open spec fn items_model(items: Seq<Json>) -> Seq<JsonModel>
    decreases items,
{
    if items.len() == 0 {
        Seq::empty()
    } else {
        items_model(items.subrange(0, items.len() - 1)).push(items[items.len() - 1].model())
    }
}

/// The model of the members of an object: later members override earlier
/// ones with the same key.
pub open spec fn members_model(members: Seq<(String, Json)>) -> Map<Seq<char>, JsonModel>
    decreases members,
{
    if members.len() == 0 {
        Map::empty()
    } else {
        let last = members[members.len() - 1];
        members_model(members.subrange(0, members.len() - 1)).insert(last.0@, last.1.model())
    }
}

impl Json {
    /// The mathematical value of this JSON value.
    pub open spec fn model(self) -> JsonModel
        decreases self,
    {
        match self {
            Json::Null => JsonModel::Null,
            Json::Boolean(b) => JsonModel::Boolean(b),
            Json::Number(bits) => JsonModel::Number(bits),
            Json::Str(s) => JsonModel::Str(s@),
            Json::Array(items) => JsonModel::Array(items_model(items@)),
            Json::Object(members) => JsonModel::Object(members_model(members@)),
        }
    }
}


impl View for Json {
    type V = JsonModel;

    open spec fn view(&self) -> JsonModel {
        self.model()
    }
}

/// What `tinyjson` parses a text into, as a model; `None` where it refuses
/// the text.
pub uninterp spec fn tinyjson_parse(text: Seq<char>) -> Option<JsonModel>;

/// The model of a value of `tinyjson::JsonValue`: its numbers by the bits of
/// their `f64`, its objects by the map from key to value.
pub uninterp spec fn tinyjson_value_model(value: tinyjson::JsonValue) -> JsonModel;

/// Calls `<tinyjson::JsonValue as FromStr>::from_str`, which parses a whole
/// text as one JSON value. Whether it succeeds and what it yields is named by
/// `tinyjson_parse`. Nothing is said of the depth of nesting, which the
/// recursive parser bounds by the stack.
#[verifier::external_body]
fn tinyjson_from_str(text: &str) -> (parsed: Result<tinyjson::JsonValue, tinyjson::JsonParseError>)
    ensures
        parsed is Ok <==> tinyjson_parse(text@) is Some,
        parsed is Ok ==> tinyjson_parse(text@) == Some(tinyjson_value_model(parsed->Ok_0)),
{
    text.parse::<tinyjson::JsonValue>()
}

/// The nesting depth of a `tinyjson::JsonValue`: deeper than each of its
/// elements and member values.
pub uninterp spec fn tinyjson_value_depth(value: tinyjson::JsonValue) -> nat;

/// One level of a `tinyjson::JsonValue`: its variant and fields, with the
/// elements and member values still as `tinyjson` holds them.
enum TinyNode {
    Null,
    Boolean(bool),
    Number(u64),
    Str(String),
    Array(Vec<tinyjson::JsonValue>),
    Object(Vec<(String, tinyjson::JsonValue)>),
}

/// The model of the members of a `tinyjson` object, later members overriding
/// earlier ones with the same key.
pub open spec fn tiny_members_model(members: Seq<(String, tinyjson::JsonValue)>) -> Map<
    Seq<char>,
    JsonModel,
>
    decreases members.len(),
{
    if members.len() == 0 {
        Map::empty()
    } else {
        let last = members.last();
        tiny_members_model(members.drop_last()).insert(last.0@, tinyjson_value_model(last.1))
    }
}

/// Takes a `tinyjson::JsonValue` apart by its variant, one arm each: a number
/// by the bits of its `f64`, an object by its `HashMap`'s members (in the
/// order the map yields them; its keys are distinct). The model of the value
/// is then that of its parts, and every part is less deeply nested than it.
#[verifier::external_body]
fn tinyjson_node(value: tinyjson::JsonValue) -> (node: TinyNode)
    ensures
        match node {
            TinyNode::Null => tinyjson_value_model(value) == JsonModel::Null,
            TinyNode::Boolean(b) => tinyjson_value_model(value) == JsonModel::Boolean(b),
            TinyNode::Number(bits) => tinyjson_value_model(value) == JsonModel::Number(bits),
            TinyNode::Str(s) => tinyjson_value_model(value) == JsonModel::Str(s@),
            TinyNode::Array(items) => {
                &&& tinyjson_value_model(value) == JsonModel::Array(
                    items@.map_values(|item: tinyjson::JsonValue| tinyjson_value_model(item)),
                )
                &&& forall|i: int|
                    0 <= i < items@.len() ==> tinyjson_value_depth(#[trigger] items@[i])
                        < tinyjson_value_depth(value)
            },
            TinyNode::Object(members) => {
                &&& tinyjson_value_model(value) == JsonModel::Object(tiny_members_model(members@))
                &&& forall|i: int|
                    0 <= i < members@.len() ==> tinyjson_value_depth((#[trigger] members@[i]).1)
                        < tinyjson_value_depth(value)
            },
        },
{
    match value {
        tinyjson::JsonValue::Null => TinyNode::Null,
        tinyjson::JsonValue::Boolean(b) => TinyNode::Boolean(b),
        tinyjson::JsonValue::Number(n) => TinyNode::Number(n.to_bits()),
        tinyjson::JsonValue::String(s) => TinyNode::Str(s),
        tinyjson::JsonValue::Array(a) => TinyNode::Array(a),
        tinyjson::JsonValue::Object(o) => TinyNode::Object(o.into_iter().collect()),
    }
}

proof fn lemma_items_model_push(items: Seq<Json>, item: Json)
    ensures
        items_model(items.push(item)) == items_model(items).push(item.model()),
{
    assert(items.push(item).subrange(0, items.len() as int) =~= items);
}

proof fn lemma_members_model_push(members: Seq<(String, Json)>, member: (String, Json))
    ensures
        members_model(members.push(member)) == members_model(members).insert(
            member.0@,
            member.1.model(),
        ),
{
    assert(members.push(member).subrange(0, members.len() as int) =~= members);
}

/// Converts a `tinyjson::JsonValue` into a `Json` with the same model.
fn json_from_tinyjson(value: tinyjson::JsonValue) -> (json: Json)
    ensures
        json@ == tinyjson_value_model(value),
    decreases tinyjson_value_depth(value),
{
    let ghost depth = tinyjson_value_depth(value);
    match tinyjson_node(value) {
        TinyNode::Null => Json::Null,
        TinyNode::Boolean(b) => Json::Boolean(b),
        TinyNode::Number(bits) => Json::Number(bits),
        TinyNode::Str(s) => Json::Str(s),
        TinyNode::Array(items) => {
            let ghost elements = items@;
            let mut converted: Vec<Json> = Vec::new();
            for item in it: items.into_iter()
                invariant
                    it.seq() == elements,
                    depth == tinyjson_value_depth(value),
                    converted@.len() == it.index(),
                    items_model(converted@) == elements.take(it.index() as int).map_values(
                        |e: tinyjson::JsonValue| tinyjson_value_model(e),
                    ),
                    forall|i: int|
                        0 <= i < elements.len() ==> tinyjson_value_depth(#[trigger] elements[i])
                            < depth,
            {
                let ghost before = converted@;
                let ghost k = it.index();
                assert(item == elements[k as int]);
                let element = json_from_tinyjson(item);
                converted.push(element);
                proof {
                    lemma_items_model_push(before, element);
                    assert(elements.take(k + 1).map_values(
                        |e: tinyjson::JsonValue| tinyjson_value_model(e),
                    ) =~= elements.take(k as int).map_values(
                        |e: tinyjson::JsonValue| tinyjson_value_model(e),
                    ).push(tinyjson_value_model(elements[k as int])));
                }
            }
            proof {
                assert(elements.take(elements.len() as int) =~= elements);
            }
            Json::Array(converted)
        },
        TinyNode::Object(members) => {
            let ghost entries = members@;
            let mut converted: Vec<(String, Json)> = Vec::new();
            for member in it: members.into_iter()
                invariant
                    it.seq() == entries,
                    depth == tinyjson_value_depth(value),
                    converted@.len() == it.index(),
                    members_model(converted@) == tiny_members_model(entries.take(it.index() as int)),
                    forall|i: int|
                        0 <= i < entries.len() ==> tinyjson_value_depth((#[trigger] entries[i]).1)
                            < depth,
            {
                let ghost before = converted@;
                let ghost k = it.index();
                assert(member == entries[k as int]);
                let (key, item) = member;
                let element = json_from_tinyjson(item);
                converted.push((key, element));
                proof {
                    lemma_members_model_push(before, (key, element));
                    assert(entries.take(k + 1).drop_last() =~= entries.take(k as int));
                }
            }
            proof {
                assert(entries.take(entries.len() as int) =~= entries);
            }
            Json::Object(converted)
        },
    }
}

/// Parses a JSON text with `tinyjson`.
pub fn parse_json(text: &str) -> (parsed: Result<Json, tinyjson::JsonParseError>)
    ensures
        parsed is Ok <==> tinyjson_parse(text@) is Some,
        parsed is Ok ==> tinyjson_parse(text@) == Some(parsed->Ok_0@),
{
    match tinyjson_from_str(text) {
        Ok(value) => Ok(json_from_tinyjson(value)),
        Err(e) => Err(e),
    }
}

/// The member of an object under a key, where the value is an object that
/// has one.
pub open spec fn member_of(value: JsonModel, key: Seq<char>) -> Option<JsonModel> {
    match value {
        JsonModel::Object(members) => if members.contains_key(key) {
            Some(members[key])
        } else {
            None
        },
        _ => None,
    }
}

/// The text of a string value.
pub open spec fn text_of(value: JsonModel) -> Option<Seq<char>> {
    match value {
        JsonModel::Str(s) => Some(s),
        _ => None,
    }
}

/// The model of a list of values holds each value's model, in order.
pub proof fn lemma_items_model_elementwise(items: Seq<Json>)
    ensures
        items_model(items).len() == items.len(),
        forall|i: int| 0 <= i < items.len() ==> #[trigger] items_model(items)[i] == items[i].model(),
    decreases items.len(),
{
    if items.len() > 0 {
        let shorter = items.subrange(0, items.len() - 1);
        lemma_items_model_elementwise(shorter);
        assert forall|i: int| 0 <= i < items.len() implies #[trigger] items_model(items)[i]
            == items[i].model() by {
            if i < items.len() - 1 {
                assert(shorter[i] == items[i]);
            }
        }
    }
}

/// The model of an object's members has exactly their keys, and under each
/// key the model of the last member with that key.
pub proof fn lemma_members_model_keys(members: Seq<(String, Json)>, key: Seq<char>)
    ensures
        members_model(members).contains_key(key) <==> exists|i: int|
            0 <= i < members.len() && (#[trigger] members[i]).0@ == key,
        forall|i: int|
            0 <= i < members.len() && (#[trigger] members[i]).0@ == key && (forall|j: int|
                i < j < members.len() ==> members[j].0@ != key) ==> members_model(members)[key]
                == members[i].1.model(),
    decreases members.len(),
{
    if members.len() > 0 {
        let n = members.len() - 1;
        let shorter = members.subrange(0, n);
        lemma_members_model_keys(shorter, key);
        if members[n].0@ != key {
            if exists|i: int| 0 <= i < members.len() && (#[trigger] members[i]).0@ == key {
                let i = choose|i: int| 0 <= i < members.len() && (#[trigger] members[i]).0@ == key;
                assert(shorter[i] == members[i]);
            }
            assert forall|i: int|
                0 <= i < members.len() && (#[trigger] members[i]).0@ == key && (forall|j: int|
                    i < j < members.len() ==> members[j].0@ != key) implies members_model(
                members,
            )[key] == members[i].1.model() by {
                assert(shorter[i] == members[i]);
                assert forall|j: int| i < j < shorter.len() implies shorter[j].0@ != key by {
                    assert(shorter[j] == members[j]);
                }
            }
        }
    }
}

/// A string value's model is the string it holds.
pub proof fn lemma_string_model(s: String)
    ensures
        Json::Str(s).model() == JsonModel::Str(s@),
{
}

/// `member_of(value, key)` is the value held under `key` in an object, and
/// nothing for anything else.
pub proof fn lemma_member_of_is_the_member(value: JsonModel, key: Seq<char>, member: JsonModel)
    ensures
        member_of(value, key) == Some(member) <==> (value is Object && value->Object_0.contains_key(
            key,
        ) && value->Object_0[key] == member),
{
}

/// `text_of(value)` is the string a string value holds, and nothing for
/// anything else.
pub proof fn lemma_text_of_is_the_string(value: JsonModel, s: Seq<char>)
    ensures
        text_of(value) == Some(s) <==> value == JsonModel::Str(s),
{
}

proof fn lemma_members_model_suffix(members: Seq<(String, Json)>, i: int, key: Seq<char>)
    requires
        0 <= i <= members.len(),
        forall|j: int| i <= j < members.len() ==> (#[trigger] members[j]).0@ != key,
    ensures
        members_model(members).contains_key(key) == members_model(
            members.subrange(0, i),
        ).contains_key(key),
        members_model(members).contains_key(key) ==> members_model(members)[key]
            == members_model(members.subrange(0, i))[key],
    decreases members.len() - i,
{
    if i < members.len() {
        let shorter = members.subrange(0, members.len() - 1);
        assert forall|j: int| i <= j < shorter.len() implies (#[trigger] shorter[j]).0@ != key by {
            assert(shorter[j] == members[j]);
        }
        assert(members[members.len() - 1].0@ != key);
        lemma_members_model_suffix(shorter, i, key);
        assert(shorter.subrange(0, i) =~= members.subrange(0, i));
    } else {
        assert(members.subrange(0, i) =~= members);
    }
}

impl Json {
    /// The member of this object under `key`; `None` where this is no object
    /// or has no such member.
    pub fn member(&self, key: &str) -> (found: Option<&Json>)
        ensures
            found is Some <==> member_of(self@, key@) is Some,
            found is Some ==> member_of(self@, key@) == Some(found->Some_0@),
    {
        match self {
            Json::Object(members) => {
                let wanted = key.to_owned();
                let mut i = members.len();
                while i > 0
                    invariant
                        i <= members@.len(),
                        wanted@ == key@,
                        self@ == JsonModel::Object(members_model(members@)),
                        forall|j: int| i <= j < members@.len() ==> (#[trigger] members@[j]).0@
                            != key@,
                    decreases i,
                {
                    if members[i - 1].0 == wanted {
                        proof {
                            lemma_members_model_suffix(members@, i as int, key@);
                            let prefix = members@.subrange(0, i as int);
                            assert(prefix.subrange(0, i - 1) =~= members@.subrange(0, i - 1));
                            assert(prefix[i - 1] == members@[i - 1]);
                            assert(members_model(prefix) == members_model(
                                prefix.subrange(0, i - 1),
                            ).insert(key@, members@[i - 1].1.model()));
                        }
                        return Some(&members[i - 1].1);
                    }
                    i = i - 1;
                }
                proof {
                    lemma_members_model_suffix(members@, 0, key@);
                }
                None
            },
            _ => None,
        }
    }

    /// The text of this value, where it is a string.
    pub fn as_text(&self) -> (text: Option<&String>)
        ensures
            text is Some <==> text_of(self@) is Some,
            text is Some ==> text_of(self@) == Some(text->Some_0@),
    {
        match self {
            Json::Str(s) => Some(s),
            _ => None,
        }
    }
}

} // verus!
