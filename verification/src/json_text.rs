//! JSON text: reading it and writing it with `serde_json`.
use vstd::prelude::*;

use crate::json::{fields_model, json_model, Json, JsonModel, JsonObject};
use crate::text::same_text;

verus! {

// ---------------------------------------------------------------------------------------------
// What is taken from serde_json
// ---------------------------------------------------------------------------------------------
/// A JSON value as `serde_json` holds it.
#[verifier::external_type_specification]
#[verifier::external_body]
pub struct ExValue(serde_json::Value);

/// What a value of `serde_json` holds.
pub uninterp spec fn value_json(v: serde_json::Value) -> JsonModel;

/// The whole number that a number is, where it is one that fits in 64 bits with a sign.
pub uninterp spec fn number_int(n: serde_json::Number) -> Option<i64>;

/// A whole number as a number.
pub uninterp spec fn int_number(i: i64) -> serde_json::Number;

/// What the reader makes of a text: the value that it denotes, or the message that says why it
/// denotes none.
pub uninterp spec fn json_read(text: Seq<char>) -> Result<JsonModel, Seq<char>>;

/// What the writer makes of a value on one line.
pub uninterp spec fn json_line(j: JsonModel) -> Result<Seq<char>, Seq<char>>;

/// What the writer makes of a value with line breaks and indentation.
pub uninterp spec fn json_pretty(j: JsonModel) -> Result<Seq<char>, Seq<char>>;

/// How a value is displayed.
pub uninterp spec fn json_display(j: JsonModel) -> Seq<char>;

/// A value taken apart: what kind it is, and the values in it.
pub enum ValueParts {
    Null,
    Bool(bool),
    Number(serde_json::Number),
    Text(String),
    Array(Vec<serde_json::Value>),
    Object(Vec<(String, serde_json::Value)>),
}

/// The fields that a list of named values makes up.
pub open spec fn value_fields(
    fields: Seq<(String, serde_json::Value)>,
) -> Map<Seq<char>, JsonModel>
    decreases fields.len(),
{
    if fields.len() == 0 {
        Map::empty()
    } else {
        value_fields(fields.drop_last()).insert(fields.last().0@, value_json(fields.last().1))
    }
}

/// Whether no name occurs twice.
pub open spec fn distinct_names(fields: Seq<(String, serde_json::Value)>) -> bool {
    forall|i: int, j: int|
        0 <= i < j < fields.len() ==> (#[trigger] fields[i]).0@ != (#[trigger] fields[j]).0@
}

/// What a value taken apart holds.
pub open spec fn parts_json(parts: ValueParts) -> JsonModel {
    match parts {
        ValueParts::Null => JsonModel::Null,
        ValueParts::Bool(b) => JsonModel::Bool(b),
        ValueParts::Number(n) => JsonModel::Number(n),
        ValueParts::Text(s) => JsonModel::Text(s@),
        ValueParts::Array(items) => JsonModel::Array(
            Seq::new(items@.len(), |i: int| value_json(items@[i])),
        ),
        ValueParts::Object(fields) => JsonModel::Object(value_fields(fields@)),
    }
}

/// How many arrays and objects stand one inside the other, at most.
pub open spec fn nesting_within(j: JsonModel, limit: nat) -> bool
    decreases j,
{
    match j {
        JsonModel::Array(items) => limit > 0 && forall|i: int|
            0 <= i < items.len() ==> nesting_within(#[trigger] items[i], (limit - 1) as nat),
        JsonModel::Object(fields) => limit > 0 && fields.dom().finite() && forall|k: Seq<char>|
            fields.contains_key(k) ==> nesting_within(#[trigger] fields[k], (limit - 1) as nat),
        _ => true,
    }
}

/// Whether every number in `j` is a whole number that fits in 64 bits with a sign.
pub open spec fn whole_numbers(j: JsonModel) -> bool
    decreases j,
{
    match j {
        JsonModel::Number(n) => number_int(n) is Some,
        JsonModel::Array(items) => forall|i: int|
            0 <= i < items.len() ==> whole_numbers(#[trigger] items[i]),
        JsonModel::Object(fields) => fields.dom().finite() && forall|k: Seq<char>|
            fields.contains_key(k) ==> whole_numbers(#[trigger] fields[k]),
        _ => true,
    }
}

/// Whether two values are the same but for their numbers with a fraction or beyond 64 bits.
pub open spec fn same_but_fractions(a: JsonModel, b: JsonModel) -> bool
    decreases a,
{
    match (a, b) {
        (JsonModel::Number(n), JsonModel::Number(m)) => number_int(n) == number_int(m),
        (JsonModel::Array(xs), JsonModel::Array(ys)) => xs.len() == ys.len() && forall|i: int|
            0 <= i < xs.len() ==> same_but_fractions(#[trigger] xs[i], ys[i]),
        (JsonModel::Object(xs), JsonModel::Object(ys)) => xs.dom().finite() && xs.dom() == ys.dom()
            && forall|k: Seq<char>|
            xs.contains_key(k) ==> same_but_fractions(#[trigger] xs[k], ys[k]),
        _ => a == b,
    }
}

/// `serde_json::from_str`, into a `serde_json::Value`: the value, or the error's text. The result
/// depends on the text alone. A value that was read has at most 127 arrays and objects one inside
/// the other: the reader refuses more.
#[verifier::external_body]
fn value_from_str(text: &str) -> (r: Result<serde_json::Value, String>)
    ensures
        match r {
            Ok(v) => json_read(text@) == Ok::<JsonModel, Seq<char>>(value_json(v))
                && nesting_within(value_json(v), 127),
            Err(e) => json_read(text@) == Err::<JsonModel, Seq<char>>(e@),
        },
{
    serde_json::from_str::<serde_json::Value>(text).map_err(|error| error.to_string())
}

/// The variants of `serde_json::Value`, told apart. The names of an object's fields are distinct.
#[verifier::external_body]
fn value_parts(v: serde_json::Value) -> (r: ValueParts)
    ensures
        parts_json(r) == value_json(v),
        r matches ValueParts::Object(fields) ==> distinct_names(fields@),
{
    match v {
        serde_json::Value::Null => ValueParts::Null,
        serde_json::Value::Bool(b) => ValueParts::Bool(b),
        serde_json::Value::Number(n) => ValueParts::Number(n),
        serde_json::Value::String(s) => ValueParts::Text(s),
        serde_json::Value::Array(items) => ValueParts::Array(items),
        serde_json::Value::Object(fields) => ValueParts::Object(fields.into_iter().collect()),
    }
}

/// The variants of `serde_json::Value`, put together. The names of an object's fields must be
/// distinct.
#[verifier::external_body]
fn value_from_parts(parts: ValueParts) -> (r: serde_json::Value)
    requires
        parts matches ValueParts::Object(fields) ==> distinct_names(fields@),
    ensures
        value_json(r) == parts_json(parts),
{
    match parts {
        ValueParts::Null => serde_json::Value::Null,
        ValueParts::Bool(b) => serde_json::Value::Bool(b),
        ValueParts::Number(n) => serde_json::Value::Number(n),
        ValueParts::Text(s) => serde_json::Value::String(s),
        ValueParts::Array(items) => serde_json::Value::Array(items),
        ValueParts::Object(fields) => serde_json::Value::Object(fields.into_iter().collect()),
    }
}

/// `serde_json::to_string` of a value: its text on one line. A `serde_json::Value` can always be
/// written. The text depends on the value alone and holds no line feed; that of an object stands
/// between braces. Read again, where it can be read, it gives the value back but for what a fraction
/// may lose; it can be read where the numbers are whole and the nesting is not too deep for the
/// reader.
#[verifier::external_body]
fn value_to_string(v: &serde_json::Value) -> (r: Result<String, String>)
    ensures
        r is Ok,
        match r {
            Ok(text) => {
                &&& json_line(value_json(*v)) == Ok::<Seq<char>, Seq<char>>(text@)
                &&& forall|i: int| 0 <= i < text@.len() ==> #[trigger] text@[i] != '\n'
                &&& value_json(*v) is Object ==> text@.len() >= 2 && text@[0] == '{' && text@.last()
                    == '}'
                &&& json_read(text@) matches Ok(back) ==> same_but_fractions(value_json(*v), back)
                &&& nesting_within(value_json(*v), 127) && whole_numbers(value_json(*v))
                    ==> json_read(text@) is Ok
            },
            Err(e) => json_line(value_json(*v)) == Err::<Seq<char>, Seq<char>>(e@),
        },
{
    serde_json::to_string(v).map_err(|error| error.to_string())
}

/// `serde_json::to_string_pretty` of a value: its text, which depends on the value alone. A
/// `serde_json::Value` can always be written.
#[verifier::external_body]
fn value_to_string_pretty(v: &serde_json::Value) -> (r: Result<String, String>)
    ensures
        r is Ok,
        match r {
            Ok(text) => json_pretty(value_json(*v)) == Ok::<Seq<char>, Seq<char>>(text@),
            Err(e) => json_pretty(value_json(*v)) == Err::<Seq<char>, Seq<char>>(e@),
        },
{
    serde_json::to_string_pretty(v).map_err(|error| error.to_string())
}

/// `ToString::to_string` of a `serde_json::Value`, that is its `Display` form, which depends on the
/// value alone.
#[verifier::external_body]
fn value_display(v: &serde_json::Value) -> (r: String)
    ensures
        r@ == json_display(value_json(*v)),
{
    v.to_string()
}

/// `serde_json::Number::as_i64`, which depends on the number alone.
#[verifier::external_body]
fn number_as_i64(n: &serde_json::Number) -> (r: Option<i64>)
    ensures
        r == number_int(*n),
{
    n.as_i64()
}

/// `serde_json::Number::from` of a whole number: a number that is that whole number, and depends on
/// it alone.
#[verifier::external_body]
fn number_from_i64(i: i64) -> (r: serde_json::Number)
    ensures
        r == int_number(i),
        number_int(r) == Some(i),
{
    serde_json::Number::from(i)
}

/// The clone of a number is that number.
pub assume_specification[ <serde_json::Number as Clone>::clone ](
    n: &serde_json::Number,
) -> (r: serde_json::Number)
    ensures
        r == *n,
;

// ---------------------------------------------------------------------------------------------
// Between the two forms of a value
// ---------------------------------------------------------------------------------------------
proof fn lemma_parts_smaller(parts: ValueParts, fields: Seq<(String, serde_json::Value)>, i: int)
    requires
        parts matches ValueParts::Object(f) && f@ == fields && distinct_names(fields),
        0 <= i < fields.len(),
    ensures
        decreases_to!(parts_json(parts) => value_json(fields[i].1)),
{
    lemma_value_field(fields, i);
    let m = value_fields(fields);
    lemma_value_fields_finite(fields);
    assert(m.contains_key(fields[i].0@) && m[fields[i].0@] == value_json(fields[i].1));
    assert(decreases_to!(m => m[fields[i].0@]));
    assert(decreases_to!(parts_json(parts) => parts_json(parts)->Object_0));
}

proof fn lemma_value_fields_finite(fields: Seq<(String, serde_json::Value)>)
    ensures
        value_fields(fields).dom().finite(),
    decreases fields.len(),
{
    if fields.len() > 0 {
        lemma_value_fields_finite(fields.drop_last());
    }
}

proof fn lemma_value_field(fields: Seq<(String, serde_json::Value)>, i: int)
    requires
        distinct_names(fields),
        0 <= i < fields.len(),
    ensures
        value_fields(fields).contains_key(fields[i].0@),
        value_fields(fields)[fields[i].0@] == value_json(fields[i].1),
    decreases fields.len(),
{
    let n = fields.len() - 1;
    if i < n {
        let before = fields.drop_last();
        assert forall|a: int, b: int| 0 <= a < b < before.len() implies (#[trigger] before[a]).0@ != (
        #[trigger] before[b]).0@ by {
            assert(before[a] == fields[a] && before[b] == fields[b]);
        }
        lemma_value_field(before, i);
        assert(fields[i].0@ != fields[n].0@);
    }
}

/// The value in the library's form.
fn json_of(v: serde_json::Value) -> (r: Json)
    ensures
        r@ == value_json(v),
    decreases value_json(v),
{
    let parts = value_parts(v);
    let ghost whole = parts;
    match parts {
        ValueParts::Null => Json::Null,
        ValueParts::Bool(b) => Json::Bool(b),
        ValueParts::Number(n) => Json::Number(n),
        ValueParts::Text(s) => Json::Text(s),
        ValueParts::Array(items) => {
            let ghost all = items@;
            let mut out: Vec<Json> = Vec::new();
            for item in it: items
                invariant
                    it.seq() == all,
                    value_json(v) == JsonModel::Array(
                        Seq::new(all.len(), |i: int| value_json(all[i])),
                    ),
                    out@.len() == it.index(),
                    forall|i: int| 0 <= i < out@.len() ==> json_model(#[trigger] out@[i])
                        == value_json(all[i]),
            {
                proof {
                    let ms = Seq::new(all.len(), |i: int| value_json(all[i]));
                    assert(decreases_to!(value_json(v) => value_json(v)->Array_0));
                    assert(decreases_to!(ms => ms[it.index() as int]));
                    assert(ms[it.index() as int] == value_json(item));
                }
                out.push(json_of(item));
            }
            let r = Json::Array(out);
            proof {
                assert(r@->Array_0 =~= value_json(v)->Array_0);
            }
            r
        },
        ValueParts::Object(fields) => {
            let ghost all = fields@;
            let mut out: Vec<(String, Json)> = Vec::new();
            proof {
                assert(all.take(0).len() == 0);
            }
            for entry in it: fields
                invariant
                    it.seq() == all,
                    whole matches ValueParts::Object(f) && f@ == all,
                    distinct_names(all),
                    parts_json(whole) == value_json(v),
                    fields_model(out@) == value_fields(all.take(it.index() as int)),
            {
                let ghost n = it.index() as int;
                proof {
                    lemma_parts_smaller(whole, all, n);
                    assert(all.take(n + 1).drop_last() == all.take(n));
                }
                let ghost before = out@;
                let value = json_of(entry.1);
                out.push((entry.0, value));
                proof {
                    assert(out@.drop_last() == before);
                }
            }
            proof {
                assert(all.take(all.len() as int) == all);
            }
            Json::Object(JsonObject { fields: out })
        },
    }
}

proof fn lemma_fields_model_front(x: (String, Json), rest: Seq<(String, Json)>)
    ensures
        fields_model(seq![x] + rest) == if fields_model(rest).contains_key(x.0@) {
            fields_model(rest)
        } else {
            fields_model(rest).insert(x.0@, json_model(x.1))
        },
    decreases rest.len(),
{
    let s = seq![x] + rest;
    if rest.len() == 0 {
        assert(s.drop_last() == rest);
        assert(s.last() == x);
    } else {
        lemma_fields_model_front(x, rest.drop_last());
        assert(s.drop_last() == seq![x] + rest.drop_last());
        assert(s.last() == rest.last());
        assert(fields_model(s) =~= if fields_model(rest).contains_key(x.0@) {
            fields_model(rest)
        } else {
            fields_model(rest).insert(x.0@, json_model(x.1))
        });
    }
}

proof fn lemma_value_absent(fields: Seq<(String, serde_json::Value)>, name: Seq<char>)
    requires
        forall|k: int| 0 <= k < fields.len() ==> (#[trigger] fields[k]).0@ != name,
    ensures
        !value_fields(fields).contains_key(name),
    decreases fields.len(),
{
    if fields.len() > 0 {
        assert forall|k: int| 0 <= k < fields.drop_last().len() implies (
        #[trigger] fields.drop_last()[k]).0@ != name by {
            assert(fields.drop_last()[k] == fields[k]);
        }
        lemma_value_absent(fields.drop_last(), name);
        assert(fields[fields.len() - 1].0@ != name);
    }
}

/// Whether a field of that name is in the list.
fn named(fields: &Vec<(String, serde_json::Value)>, name: &str) -> (r: bool)
    requires
        distinct_names(fields@),
    ensures
        r == value_fields(fields@).contains_key(name@),
        !r ==> forall|k: int| 0 <= k < fields@.len() ==> (#[trigger] fields@[k]).0@ != name@,
{
    let mut i: usize = 0;
    while i < fields.len()
        invariant
            i <= fields@.len(),
            distinct_names(fields@),
            forall|k: int| 0 <= k < i ==> (#[trigger] fields@[k]).0@ != name@,
        decreases fields@.len() - i,
    {
        if same_text(fields[i].0.as_str(), name) {
            proof {
                lemma_value_field(fields@, i as int);
            }
            return true;
        }
        i += 1;
    }
    proof {
        lemma_value_absent(fields@, name@);
    }
    false
}

/// The value in the form of `serde_json`.
fn value_of(j: &Json) -> (r: serde_json::Value)
    ensures
        value_json(r) == j@,
    decreases j,
{
    match j {
        Json::Null => value_from_parts(ValueParts::Null),
        Json::Bool(b) => value_from_parts(ValueParts::Bool(*b)),
        Json::Number(n) => value_from_parts(ValueParts::Number(n.clone())),
        Json::Text(s) => value_from_parts(ValueParts::Text(s.clone())),
        Json::Array(items) => {
            let mut out: Vec<serde_json::Value> = Vec::new();
            let mut i: usize = 0;
            while i < items.len()
                invariant
                    i <= items@.len(),
                    *j == Json::Array(*items),
                    out@.len() == i,
                    forall|k: int| 0 <= k < i ==> value_json(#[trigger] out@[k]) == json_model(
                        items@[k],
                    ),
                decreases items@.len() - i,
            {
                proof {
                    assert(decreases_to!(j => j->Array_0));
                    assert(decreases_to!(items@ => items@[i as int]));
                }
                out.push(value_of(&items[i]));
                i += 1;
            }
            let parts = ValueParts::Array(out);
            proof {
                assert(parts_json(parts)->Array_0 =~= j@->Array_0);
            }
            value_from_parts(parts)
        },
        Json::Object(object) => value_of_object(object),
    }
}

/// The object in the form of `serde_json`.
fn value_of_object(object: &JsonObject) -> (r: serde_json::Value)
    ensures
        value_json(r) == JsonModel::Object(object@),
    decreases object,
{
    let ghost all = object.fields@;
    let mut out: Vec<(String, serde_json::Value)> = Vec::new();
    let mut i: usize = object.fields.len();
    proof {
        assert(all.skip(i as int).len() == 0);
    }
    while i > 0
        invariant
            i <= all.len(),
            all == object.fields@,
            distinct_names(out@),
            value_fields(out@) == fields_model(all.skip(i as int)),
        decreases i,
    {
        i -= 1;
        let entry: &(String, Json) = &object.fields[i];
        proof {
            lemma_fields_model_front(all[i as int], all.skip(i + 1));
            assert(seq![all[i as int]] + all.skip(i + 1) == all.skip(i as int));
        }
        if !named(&out, entry.0.as_str()) {
            let ghost before = out@;
            out.push((entry.0.clone(), value_of(&entry.1)));
            proof {
                assert(out@.drop_last() == before);
            }
        }
    }
    proof {
        assert(all.skip(0) == all);
    }
    value_from_parts(ValueParts::Object(out))
}

// ---------------------------------------------------------------------------------------------
// Reading and writing
// ---------------------------------------------------------------------------------------------
/// Reads a JSON value from text.
pub fn parse_json(text: &str) -> (r: Result<Json, String>)
    ensures
        match r {
            Ok(j) => json_read(text@) == Ok::<JsonModel, Seq<char>>(j@) && nesting_within(j@, 127),
            Err(e) => json_read(text@) == Err::<JsonModel, Seq<char>>(e@),
        },
{
    match value_from_str(text) {
        Ok(v) => Ok(json_of(v)),
        Err(e) => Err(e),
    }
}

/// What is known of the text that a value is written as on one line.
pub open spec fn good_line(j: JsonModel, text: Seq<char>) -> bool {
    &&& forall|i: int| 0 <= i < text.len() ==> #[trigger] text[i] != '\n'
    &&& j is Object ==> text.len() >= 2 && text[0] == '{' && text.last() == '}'
    &&& json_read(text) matches Ok(back) ==> same_but_fractions(j, back)
    &&& nesting_within(j, 127) && whole_numbers(j) ==> json_read(text) is Ok
}

/// Whether all that is known of lines holds of the line that a value is written as.
pub open spec fn written_well(j: JsonModel) -> bool {
    json_line(j) matches Ok(text) ==> good_line(j, text)
}

/// Whether a value can be written on one line, and that line read again.
pub open spec fn reads_again(j: JsonModel) -> bool {
    json_line(j) matches Ok(text) && json_read(text) is Ok
}

/// A value without fractions, and not nested too deep for the reader, can be read again once it was
/// written.
pub proof fn whole_numbers_read_again(j: JsonModel)
    requires
        json_line(j) is Ok,
        written_well(j),
        nesting_within(j, 127),
        whole_numbers(j),
    ensures
        reads_again(j),
{
}

/// Writes the value on one line.
pub fn write_line(j: &Json) -> (r: Result<String, String>)
    ensures
        r is Ok,
        match r {
            Ok(text) => json_line(j@) == Ok::<Seq<char>, Seq<char>>(text@) && good_line(j@, text@),
            Err(e) => json_line(j@) == Err::<Seq<char>, Seq<char>>(e@),
        },
        written_well(j@),
{
    let v = value_of(j);
    value_to_string(&v)
}

/// A value in indented form; where the writer fails, as it is displayed.
pub open spec fn indented(j: JsonModel) -> Seq<char> {
    match json_pretty(j) {
        Ok(text) => text,
        Err(_) => json_display(j),
    }
}

/// Writes the value with line breaks and indentation.
pub fn write_pretty(j: &Json) -> (r: Result<String, String>)
    ensures
        r is Ok,
        match r {
            Ok(text) => json_pretty(j@) == Ok::<Seq<char>, Seq<char>>(text@),
            Err(e) => json_pretty(j@) == Err::<Seq<char>, Seq<char>>(e@),
        },
{
    let v = value_of(j);
    value_to_string_pretty(&v)
}

/// The value in indented form.
pub fn write_indented(j: &Json) -> (r: String)
    ensures
        r@ == indented(j@),
{
    let v = value_of(j);
    match value_to_string_pretty(&v) {
        Ok(text) => text,
        Err(_) => value_display(&v),
    }
}

/// The value as it is displayed.
pub fn display_json(j: &Json) -> (r: String)
    ensures
        r@ == json_display(j@),
{
    let v = value_of(j);
    value_display(&v)
}

/// The object in indented form.
pub fn stringify_map(object: &JsonObject) -> (r: String)
    ensures
        r@ == indented(JsonModel::Object(object@)),
{
    let v = value_of_object(object);
    match value_to_string_pretty(&v) {
        Ok(text) => text,
        Err(_) => value_display(&v),
    }
}

/// A text as it is, null as nothing, and any other value in indented form.
pub open spec fn stringified(j: JsonModel) -> Seq<char> {
    match j {
        JsonModel::Null => Seq::empty(),
        JsonModel::Text(s) => s,
        _ => indented(j),
    }
}

/// A text as it is, null as nothing, and any other value in indented form.
pub fn stringify_json_or_string(j: &Json) -> (r: String)
    ensures
        r@ == stringified(j@),
{
    match j {
        Json::Null => String::new(),
        Json::Text(s) => s.clone(),
        _ => write_indented(j),
    }
}

/// The whole number that the value is, where it is one that fits in 64 bits.
pub open spec fn as_int(j: JsonModel) -> Option<i64> {
    match j {
        JsonModel::Number(n) => number_int(n),
        _ => None,
    }
}

/// The whole number that the value is, where it is one that fits in 64 bits.
pub fn json_as_i64(j: &Json) -> (r: Option<i64>)
    ensures
        r == as_int(j@),
{
    match j {
        Json::Number(n) => number_as_i64(n),
        _ => None,
    }
}

/// A whole number as a value.
pub fn json_from_i64(i: i64) -> (r: Json)
    ensures
        r@ == JsonModel::Number(int_number(i)),
        as_int(r@) == Some(i),
{
    Json::Number(number_from_i64(i))
}

/// A text as a value.
pub fn json_from_str(s: &str) -> (r: Json)
    ensures
        r@ == JsonModel::Text(s@),
{
    Json::Text(s.to_owned())
}

impl Clone for Json {
    fn clone(&self) -> (r: Json)
        ensures
            r@ == self@,
        decreases self,
    {
        match self {
            Json::Null => Json::Null,
            Json::Bool(b) => Json::Bool(*b),
            Json::Number(n) => Json::Number(n.clone()),
            Json::Text(s) => Json::Text(s.clone()),
            Json::Array(items) => {
                let mut out: Vec<Json> = Vec::new();
                let mut i: usize = 0;
                while i < items.len()
                    invariant
                        i <= items@.len(),
                        *self == Json::Array(*items),
                        out@.len() == i,
                        forall|k: int| 0 <= k < i ==> json_model(#[trigger] out@[k]) == json_model(
                            items@[k],
                        ),
                    decreases items@.len() - i,
                {
                    proof {
                        assert(decreases_to!(self => self->Array_0));
                        assert(decreases_to!(items@ => items@[i as int]));
                    }
                    out.push(items[i].clone());
                    i += 1;
                }
                let r = Json::Array(out);
                proof {
                    assert(r@->Array_0 =~= self@->Array_0);
                }
                r
            },
            Json::Object(object) => Json::Object(object.clone()),
        }
    }
}

impl Clone for JsonObject {
    fn clone(&self) -> (r: JsonObject)
        ensures
            r@ == self@,
        decreases self,
    {
        let ghost all = self.fields@;
        let mut out: Vec<(String, Json)> = Vec::new();
        let mut i: usize = 0;
        proof {
            assert(all.take(0).len() == 0);
        }
        while i < self.fields.len()
            invariant
                all == self.fields@,
                i <= all.len(),
                fields_model(out@) == fields_model(all.take(i as int)),
            decreases all.len() - i,
        {
            let ghost before = out@;
            out.push((self.fields[i].0.clone(), self.fields[i].1.clone()));
            proof {
                assert(out@.drop_last() == before);
                assert(all.take(i + 1).drop_last() == all.take(i as int));
            }
            i += 1;
        }
        proof {
            assert(all.take(i as int) == all);
        }
        JsonObject { fields: out }
    }
}

// ---------------------------------------------------------------------------------------------
// What fields show
// ---------------------------------------------------------------------------------------------
/// Whether a text is what a value shows: the text that it is, nothing where it is null, and any other
/// value in indented form.
pub open spec fn value_shows(j: JsonModel, text: Seq<char>) -> bool {
    match j {
        JsonModel::Null => text.len() == 0,
        JsonModel::Text(s) => text == s,
        _ => match json_pretty(j) {
            Ok(pretty) => text == pretty,
            Err(_) => text == json_display(j),
        },
    }
}

/// Whether a text is what a field shows, which is nothing where the field is missing.
pub open spec fn shows(fields: Map<Seq<char>, JsonModel>, name: Seq<char>, text: Seq<char>) -> bool {
    if fields.contains_key(name) {
        value_shows(fields[name], text)
    } else {
        text.len() == 0
    }
}

/// A value in indented form is what the writer makes of it with line breaks; and what a field shows is
/// a text as it is, nothing for null, and any other value in indented form.
pub proof fn values_are_shown_indented(j: JsonModel)
    ensures
        json_pretty(j) matches Ok(text) ==> indented(j) == text,
        value_shows(j, stringified(j)),
        !(j is Text) && !(j is Null) ==> stringified(j) == indented(j),
{
}

} // verus!
