//! JSON values: what they are, and what they hold.
use vstd::prelude::*;

use crate::text::same_text;

verus! {

/// A number as `serde_json` holds it: a whole number or a finite floating-point number. It is
/// carried along as it is.
#[verifier::external_type_specification]
#[verifier::external_body]
pub struct ExNumber(serde_json::Number);

// ---------------------------------------------------------------------------------------------
// The model
// ---------------------------------------------------------------------------------------------
/// What a JSON value is.
pub enum JsonModel {
    Null,
    Bool(bool),
    Number(serde_json::Number),
    Text(Seq<char>),
    Array(Seq<JsonModel>),
    Object(Map<Seq<char>, JsonModel>),
}

/// A JSON value.
#[derive(Debug, PartialEq)]
pub enum Json {
    Null,
    Bool(bool),
    Number(serde_json::Number),
    Text(String),
    Array(Vec<Json>),
    Object(JsonObject),
}

/// The fields of a JSON object. Where a name occurs twice, the last field of that name counts.
#[derive(Debug, PartialEq)]
pub struct JsonObject {
    pub fields: Vec<(String, Json)>,
}

/// What a value stands for.
pub open spec fn json_model(j: Json) -> JsonModel
    decreases j, 0nat,
{
    match j {
        Json::Null => JsonModel::Null,
        Json::Bool(b) => JsonModel::Bool(b),
        Json::Number(n) => JsonModel::Number(n),
        Json::Text(s) => JsonModel::Text(s@),
        Json::Array(items) => JsonModel::Array(
            Seq::new(
                items@.len(),
                |i: int|
                    if 0 <= i < items@.len() {
                        json_model(items@[i])
                    } else {
                        JsonModel::Null
                    },
            ),
        ),
        Json::Object(object) => JsonModel::Object(fields_model(object.fields@)),
    }
}

/// What a list of fields stands for.
pub open spec fn fields_model(fields: Seq<(String, Json)>) -> Map<Seq<char>, JsonModel>
    decreases fields, fields.len(),
{
    if fields.len() == 0 {
        Map::empty()
    } else {
        fields_model(fields.drop_last()).insert(fields.last().0@, json_model(fields.last().1))
    }
}

impl View for Json {
    type V = JsonModel;

    open spec fn view(&self) -> JsonModel {
        json_model(*self)
    }
}

impl DeepView for Json {
    type V = JsonModel;

    open spec fn deep_view(&self) -> JsonModel {
        json_model(*self)
    }
}

impl View for JsonObject {
    type V = Map<Seq<char>, JsonModel>;

    open spec fn view(&self) -> Map<Seq<char>, JsonModel> {
        fields_model(self.fields@)
    }
}

/// The field `name` of `j`, where `j` is an object that has one.
pub open spec fn json_get(j: JsonModel, name: Seq<char>) -> Option<JsonModel> {
    match j {
        JsonModel::Object(fields) => field(fields, name),
        _ => None,
    }
}

/// The field `name`, where there is one.
pub open spec fn field(fields: Map<Seq<char>, JsonModel>, name: Seq<char>) -> Option<JsonModel> {
    if fields.contains_key(name) {
        Some(fields[name])
    } else {
        None
    }
}

/// The text that `j` is, where it is one.
pub open spec fn as_text(j: Option<JsonModel>) -> Option<Seq<char>> {
    match j {
        Some(JsonModel::Text(s)) => Some(s),
        _ => None,
    }
}

/// The field `name`, where there is one and it is a text.
pub open spec fn text_field(
    fields: Map<Seq<char>, JsonModel>,
    name: Seq<char>,
) -> Option<Seq<char>> {
    as_text(field(fields, name))
}

/// The field `name`, where there is one and it is a text; otherwise the empty text.
pub open spec fn text_or_empty(fields: Map<Seq<char>, JsonModel>, name: Seq<char>) -> Seq<char> {
    match text_field(fields, name) {
        Some(s) => s,
        None => Seq::empty(),
    }
}

// ---------------------------------------------------------------------------------------------
// Access
// ---------------------------------------------------------------------------------------------
proof fn lemma_field_absent(fields: Seq<(String, Json)>, name: Seq<char>)
    requires
        forall|k: int| 0 <= k < fields.len() ==> (#[trigger] fields[k]).0@ != name,
    ensures
        !fields_model(fields).contains_key(name),
    decreases fields.len(),
{
    if fields.len() > 0 {
        assert forall|k: int| 0 <= k < fields.drop_last().len() implies (
        #[trigger] fields.drop_last()[k]).0@ != name by {
            assert(fields.drop_last()[k] == fields[k]);
        }
        lemma_field_absent(fields.drop_last(), name);
        assert(fields[fields.len() - 1].0@ != name);
    }
}

proof fn lemma_field_present(fields: Seq<(String, Json)>, name: Seq<char>, at: int)
    requires
        0 <= at < fields.len(),
        fields[at].0@ == name,
        forall|k: int| at < k < fields.len() ==> (#[trigger] fields[k]).0@ != name,
    ensures
        fields_model(fields).contains_key(name),
        fields_model(fields)[name] == json_model(fields[at].1),
    decreases fields.len(),
{
    if at < fields.len() - 1 {
        assert forall|k: int| at < k < fields.drop_last().len() implies (
        #[trigger] fields.drop_last()[k]).0@ != name by {
            assert(fields.drop_last()[k] == fields[k]);
        }
        lemma_field_present(fields.drop_last(), name, at);
        assert(fields[fields.len() - 1].0@ != name);
    }
}

proof fn lemma_field_replaced(fields: Seq<(String, Json)>, name: String, value: Json, at: int)
    requires
        0 <= at < fields.len(),
        fields[at].0@ == name@,
        forall|k: int| at < k < fields.len() ==> (#[trigger] fields[k]).0@ != name@,
    ensures
        fields_model(fields.update(at, (name, value))) == fields_model(fields).insert(
            name@,
            json_model(value),
        ),
    decreases fields.len(),
{
    let next = fields.update(at, (name, value));
    if at < fields.len() - 1 {
        assert forall|k: int| at < k < fields.drop_last().len() implies (
        #[trigger] fields.drop_last()[k]).0@ != name@ by {
            assert(fields.drop_last()[k] == fields[k]);
        }
        lemma_field_replaced(fields.drop_last(), name, value, at);
        assert(next.drop_last() == fields.drop_last().update(at, (name, value)));
        assert(fields[fields.len() - 1].0@ != name@);
        assert(next.last() == fields.last());
        assert(fields_model(next) =~= fields_model(fields).insert(name@, json_model(value)));
    } else {
        assert(next.drop_last() == fields.drop_last());
        assert(fields_model(next) =~= fields_model(fields).insert(name@, json_model(value)));
    }
}

impl JsonObject {
    /// An object without fields.
    pub fn new() -> (r: JsonObject)
        ensures
            r@ == Map::<Seq<char>, JsonModel>::empty(),
    {
        JsonObject { fields: Vec::new() }
    }

    fn position(&self, name: &str) -> (r: Option<usize>)
        ensures
            match r {
                Some(at) => {
                    &&& at < self.fields@.len()
                    &&& self.fields@[at as int].0@ == name@
                    &&& forall|k: int|
                        at < k < self.fields@.len() ==> (#[trigger] self.fields@[k]).0@ != name@
                },
                None => forall|k: int|
                    0 <= k < self.fields@.len() ==> (#[trigger] self.fields@[k]).0@ != name@,
            },
    {
        let mut i: usize = self.fields.len();
        while i > 0
            invariant
                i <= self.fields@.len(),
                forall|k: int|
                    i <= k < self.fields@.len() ==> (#[trigger] self.fields@[k]).0@ != name@,
            decreases i,
        {
            i -= 1;
            if same_text(self.fields[i].0.as_str(), name) {
                return Some(i);
            }
        }
        None
    }

    /// The field of that name.
    pub fn get(&self, name: &str) -> (r: Option<&Json>)
        ensures
            match r {
                Some(j) => field(self@, name@) == Some(j@),
                None => field(self@, name@) is None,
            },
    {
        match self.position(name) {
            Some(at) => {
                proof {
                    lemma_field_present(self.fields@, name@, at as int);
                }
                Some(&self.fields[at].1)
            },
            None => {
                proof {
                    lemma_field_absent(self.fields@, name@);
                }
                None
            },
        }
    }

    /// The field of that name, where it is a text.
    pub fn get_text(&self, name: &str) -> (r: Option<&str>)
        ensures
            match r {
                Some(s) => text_field(self@, name@) == Some(s@),
                None => text_field(self@, name@) is None,
            },
    {
        match self.get(name) {
            Some(j) => j.as_str(),
            None => None,
        }
    }

    /// The field of that name, where it is a text; otherwise the empty text.
    pub fn get_text_or_empty(&self, name: &str) -> (r: &str)
        ensures
            r@ == text_or_empty(self@, name@),
    {
        match self.get_text(name) {
            Some(s) => s,
            None => {
                proof {
                    reveal_strlit("");
                    assert(""@ == Seq::<char>::empty());
                }
                ""
            },
        }
    }

    /// Gives the field of that name the value, whether or not there was one before.
    pub fn set(&mut self, name: &str, value: Json)
        ensures
            final(self)@ == old(self)@.insert(name@, value@),
    {
        let key = name.to_owned();
        match self.position(name) {
            Some(at) => {
                proof {
                    lemma_field_replaced(self.fields@, key, value, at as int);
                }
                self.fields.set(at, (key, value));
            },
            None => {
                self.fields.push((key, value));
                proof {
                    assert(self.fields@.drop_last() == old(self).fields@);
                }
            },
        }
    }
}

impl Json {
    /// The field of that name, where the value is an object that has one.
    pub fn get(&self, name: &str) -> (r: Option<&Json>)
        ensures
            match r {
                Some(j) => json_get(self@, name@) == Some(j@),
                None => json_get(self@, name@) is None,
            },
    {
        match self {
            Json::Object(object) => object.get(name),
            _ => None,
        }
    }

    /// The text, where the value is one.
    pub fn as_str(&self) -> (r: Option<&str>)
        ensures
            match r {
                Some(s) => as_text(Some(self@)) == Some(s@),
                None => as_text(Some(self@)) is None,
            },
    {
        match self {
            Json::Text(s) => Some(s.as_str()),
            _ => None,
        }
    }

    /// The items, where the value is an array.
    pub fn as_array(&self) -> (r: Option<&Vec<Json>>)
        ensures
            match r {
                Some(items) => self@ == JsonModel::Array(items.deep_view()),
                None => !(self@ is Array),
            },
    {
        match self {
            Json::Array(items) => {
                proof {
                    assert(self@->Array_0 =~= items.deep_view());
                }
                Some(items)
            },
            _ => None,
        }
    }

    /// The fields, where the value is an object.
    pub fn as_object(&self) -> (r: Option<&JsonObject>)
        ensures
            match r {
                Some(object) => self@ == JsonModel::Object(object@),
                None => !(self@ is Object),
            },
    {
        match self {
            Json::Object(object) => Some(object),
            _ => None,
        }
    }
}

// ---------------------------------------------------------------------------------------------
// What fields say
// ---------------------------------------------------------------------------------------------
/// Whether a field is there and is that text.
pub open spec fn says(fields: Map<Seq<char>, JsonModel>, name: Seq<char>, text: Seq<char>) -> bool {
    fields.contains_key(name) && fields[name] == JsonModel::Text(text)
}

/// Whether a text is what a field says: the text that the field is, or else another one.
pub open spec fn tells_or(
    fields: Map<Seq<char>, JsonModel>,
    name: Seq<char>,
    other: Seq<char>,
    text: Seq<char>,
) -> bool {
    if fields.contains_key(name) && fields[name] is Text {
        fields[name] == JsonModel::Text(text)
    } else {
        text == other
    }
}

/// Whether a text is what a field says: the text that the field is, or else nothing.
pub open spec fn tells(fields: Map<Seq<char>, JsonModel>, name: Seq<char>, text: Seq<char>) -> bool {
    tells_or(fields, name, Seq::empty(), text)
}

} // verus!
