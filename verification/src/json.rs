//! JSON documents as plain values.

use vstd::prelude::*;

use crate::text::same_text;

verus! {

/// What a JSON document says.
#[verifier::ext_equal]
pub enum JsonView {
    Null,
    Bool(bool),
    /// A number, where it is an integer that an `i64` holds; nothing for any other number.
    Number(Option<i64>),
    Text(Seq<char>),
    Array(Seq<JsonView>),
    /// The fields of an object by name.
    Object(Seq<(Seq<char>, JsonView)>),
}

/// A JSON document.
#[derive(Debug)]
pub enum Json {
    Null,
    Bool(bool),
    Number(Option<i64>),
    Text(String),
    Array(Vec<Json>),
    Object(Vec<(String, Json)>),
}

impl View for Json {
    type V = JsonView;

    open spec fn view(&self) -> JsonView
        decreases self,
    {
        match self {
            Json::Null => JsonView::Null,
            Json::Bool(b) => JsonView::Bool(*b),
            Json::Number(n) => JsonView::Number(*n),
            Json::Text(s) => JsonView::Text(s@),
            Json::Array(a) => JsonView::Array(
                Seq::new(
                    a@.len(),
                    |i: int|
                        if 0 <= i < a@.len() {
                            a@[i].view()
                        } else {
                            JsonView::Null
                        },
                ),
            ),
            Json::Object(o) => JsonView::Object(
                Seq::new(
                    o@.len(),
                    |i: int|
                        if 0 <= i < o@.len() {
                            (o@[i].0@, o@[i].1.view())
                        } else {
                            (seq![], JsonView::Null)
                        },
                ),
            ),
        }
    }
}

/// An array says what its items say.
pub proof fn lemma_array_view(a: Vec<Json>)
    ensures
        Json::Array(a)@ == JsonView::Array(a@.map_values(|j: Json| j@)),
{
    reveal_with_fuel(<Json as View>::view, 2);
    assert(Json::Array(a)@->Array_0 =~= a@.map_values(|j: Json| j@));
}

/// An object says what its fields say.
pub proof fn lemma_object_view(o: Vec<(String, Json)>)
    ensures
        Json::Object(o)@ == JsonView::Object(o@.map_values(|f: (String, Json)| (f.0@, f.1@))),
{
    reveal_with_fuel(<Json as View>::view, 2);
    assert(Json::Object(o)@->Object_0 =~= o@.map_values(|f: (String, Json)| (f.0@, f.1@)));
}

/// A value that `serde_json` has parsed.
#[verifier::external_type_specification]
#[verifier::external_body]
pub struct ExValue(serde_json::Value);

/// What a value of `serde_json` says, with the fields of each object in the order of its map.
pub uninterp spec fn value_view(v: serde_json::Value) -> JsonView;

/// What `serde_json::from_slice` reads in a text; nothing where the text is no JSON document, or one
/// that is nested too deep.
pub uninterp spec fn parsed(text: Seq<u8>) -> Option<JsonView>;

/// The outermost layer of a value.
enum Layer {
    Null,
    Bool(bool),
    Number(Option<i64>),
    Text(String),
    Array(Vec<serde_json::Value>),
    Object(Vec<(String, serde_json::Value)>),
}

/// Whether `layer` is the outermost layer of `v`.
spec fn is_layer(layer: Layer, v: JsonView) -> bool {
    match layer {
        Layer::Null => v == JsonView::Null,
        Layer::Bool(b) => v == JsonView::Bool(b),
        Layer::Number(n) => v == JsonView::Number(n),
        Layer::Text(s) => v == JsonView::Text(s@),
        Layer::Array(a) => v matches JsonView::Array(items) && items.len() == a@.len() && forall|
            i: int,
        |
            0 <= i < a@.len() ==> value_view(#[trigger] a@[i]) == items[i],
        Layer::Object(o) => v matches JsonView::Object(fields) && fields.len() == o@.len()
            && forall|i: int|
            0 <= i < o@.len() ==> fields[i].0 == (#[trigger] o@[i]).0@ && value_view(o@[i].1)
                == fields[i].1,
    }
}

/// `serde_json::from_slice`, reading a `serde_json::Value`: whether it succeeds and
/// what it reads depends on the text alone.
#[verifier::external_body]
fn from_slice(text: &[u8]) -> (r: Option<serde_json::Value>)
    ensures
        parsed(text@) == (match r {
            Some(v) => Some(value_view(v)),
            None => None,
        }),
{
    serde_json::from_slice(text).ok()
}

/// Takes a `serde_json::Value` apart, one arm for each of its variants. `Number::as_i64` gives the
/// integers that an `i64` holds; the entries of a map come in the map's own order.
#[verifier::external_body]
fn open_value(v: serde_json::Value) -> (r: Layer)
    ensures
        is_layer(r, value_view(v)),
{
    match v {
        serde_json::Value::Null => Layer::Null,
        serde_json::Value::Bool(b) => Layer::Bool(b),
        serde_json::Value::Number(n) => Layer::Number(n.as_i64()),
        serde_json::Value::String(s) => Layer::Text(s),
        serde_json::Value::Array(a) => Layer::Array(a),
        serde_json::Value::Object(o) => Layer::Object(o.into_iter().collect()),
    }
}

/// A value of `serde_json` as a plain document.
fn to_json(v: serde_json::Value) -> (r: Json)
    ensures
        r@ == value_view(v),
    decreases value_view(v),
{
    let layer: Layer = open_value(v);
    let ghost whole = value_view(v);
    match layer {
        Layer::Null => Json::Null,
        Layer::Bool(b) => Json::Bool(b),
        Layer::Number(n) => Json::Number(n),
        Layer::Text(s) => Json::Text(s),
        Layer::Array(a) => {
            let mut items: Vec<Json> = Vec::new();
            for x in it: a
                invariant
                    whole == value_view(v),
                    whole is Array,
                    it.seq() == a@,
                    whole->Array_0.len() == a@.len(),
                    forall|i: int|
                        0 <= i < a@.len() ==> value_view(#[trigger] a@[i]) == whole->Array_0[i],
                    items@.len() == it.index(),
                    forall|i: int|
                        0 <= i < items@.len() ==> (#[trigger] items@[i])@ == whole->Array_0[i],
            {
                let y: Json = to_json(x);
                items.push(y);
            }
            let r: Json = Json::Array(items);
            proof {
                assert(r@->Array_0 =~= whole->Array_0);
            }
            r
        },
        Layer::Object(o) => {
            let mut fields: Vec<(String, Json)> = Vec::new();
            for x in it: o
                invariant
                    whole == value_view(v),
                    whole is Object,
                    it.seq() == o@,
                    whole->Object_0.len() == o@.len(),
                    forall|i: int|
                        0 <= i < o@.len() ==> whole->Object_0[i].0 == (#[trigger] o@[i]).0@
                            && value_view(o@[i].1) == whole->Object_0[i].1,
                    fields@.len() == it.index(),
                    forall|i: int|
                        0 <= i < fields@.len() ==> (#[trigger] fields@[i]).0@
                            == whole->Object_0[i].0 && fields@[i].1@ == whole->Object_0[i].1,
            {
                let (name, value): (String, serde_json::Value) = x;
                proof {
                    assert(decreases_to!(whole => whole->Object_0[it.index() as int].1));
                }
                let y: Json = to_json(value);
                fields.push((name, y));
            }
            let r: Json = Json::Object(fields);
            proof {
                assert(r@->Object_0 =~= whole->Object_0);
            }
            r
        },
    }
}

/// The document that `text` writes; nothing where it writes none.
pub fn parse(text: &[u8]) -> (r: Option<Json>)
    ensures
        parsed(text@) == (match r {
            Some(j) => Some(j@),
            None => None,
        }),
{
    match from_slice(text) {
        Some(v) => Some(to_json(v)),
        None => None,
    }
}

/// The first of `fields` that has this name.
pub open spec fn find_field(fields: Seq<(Seq<char>, JsonView)>, name: Seq<char>) -> Option<JsonView>
    decreases fields.len(),
{
    if fields.len() == 0 {
        None
    } else if fields[0].0 == name {
        Some(fields[0].1)
    } else {
        find_field(fields.skip(1), name)
    }
}

impl JsonView {
    /// The field of an object that has this name.
    pub open spec fn field(self, name: Seq<char>) -> Option<JsonView> {
        match self {
            JsonView::Object(fields) => find_field(fields, name),
            _ => None,
        }
    }

    /// The integer that a number is, where an `i64` holds it.
    pub open spec fn integer(self) -> Option<i64> {
        match self {
            JsonView::Number(n) => n,
            _ => None,
        }
    }

    /// The text of a string.
    pub open spec fn text(self) -> Option<Seq<char>> {
        match self {
            JsonView::Text(s) => Some(s),
            _ => None,
        }
    }

    /// The items of an array.
    pub open spec fn items(self) -> Option<Seq<JsonView>> {
        match self {
            JsonView::Array(a) => Some(a),
            _ => None,
        }
    }
}

impl Json {
    /// The field of an object that has this name.
    pub fn field(&self, name: &str) -> (r: Option<&Json>)
        ensures
            self@.field(name@) == (match r {
                Some(j) => Some(j@),
                None => None,
            }),
    {
        match self {
            Json::Object(fields) => {
                let mut i: usize = 0;
                let ghost all = fields@.map_values(|f: (String, Json)| (f.0@, f.1@));
                proof {
                    lemma_object_view(*fields);
                    assert(all.skip(0) =~= all);
                }
                while i < fields.len()
                    invariant
                        i <= fields@.len(),
                        all == fields@.map_values(|f: (String, Json)| (f.0@, f.1@)),
                        self@ == JsonView::Object(all),
                        find_field(all, name@) == find_field(all.skip(i as int), name@),
                    decreases fields@.len() - i,
                {
                    proof {
                        assert(all.skip(i as int)[0] == (fields@[i as int].0@, fields@[i as int].1@));
                        assert(all.skip(i as int).skip(1) =~= all.skip(i + 1));
                    }
                    if same_text(fields[i].0.as_str(), name) {
                        return Some(&fields[i].1);
                    }
                    i = i + 1;
                }
                None
            },
            _ => None,
        }
    }

    /// The integer that a number is, where an `i64` holds it.
    pub fn integer(&self) -> (r: Option<i64>)
        ensures
            r == self@.integer(),
    {
        match self {
            Json::Number(n) => *n,
            _ => None,
        }
    }

    /// The text of a string.
    pub fn text(&self) -> (r: Option<String>)
        ensures
            self@.text() == (match r {
                Some(s) => Some(s@),
                None => None,
            }),
    {
        match self {
            Json::Text(s) => Some(s.clone()),
            _ => None,
        }
    }

    /// The items of an array.
    pub fn items(&self) -> (r: Option<&Vec<Json>>)
        ensures
            self@.items() == (match r {
                Some(a) => Some(a@.map_values(|j: Json| j@)),
                None => None,
            }),
    {
        match self {
            Json::Array(a) => {
                proof {
                    lemma_array_view(*a);
                }
                Some(a)
            },
            _ => None,
        }
    }
}

/// A field is found by its name: the first that has it counts, and nothing but an object has
/// fields.
pub proof fn fields_are_found_by_name(
    v: JsonView,
    fields: Seq<(Seq<char>, JsonView)>,
    name: Seq<char>,
    k: int,
)
    ensures
        0 <= k < fields.len() && fields[k].0 == name && (forall|i: int|
            0 <= i < k ==> (#[trigger] fields[i]).0 != name) ==> JsonView::Object(fields).field(name)
            == Some(fields[k].1),
        (forall|i: int| 0 <= i < fields.len() ==> (#[trigger] fields[i]).0 != name)
            ==> JsonView::Object(fields).field(name) is None,
        !(v is Object) ==> v.field(name) is None,
    decreases fields.len(),
{
    if fields.len() > 0 {
        let t = fields.skip(1);
        fields_are_found_by_name(v, t, name, k - 1);
        if 0 <= k < fields.len() && fields[k].0 == name && (forall|i: int|
            0 <= i < k ==> (#[trigger] fields[i]).0 != name) {
            if k > 0 {
                assert(fields[0].0 != name);
                assert(t[k - 1] == fields[k]);
                assert forall|i: int| 0 <= i < k - 1 implies (#[trigger] t[i]).0 != name by {
                    assert(t[i] == fields[i + 1]);
                }
                assert(JsonView::Object(t).field(name) == Some(fields[k].1));
            }
        }
        if forall|i: int| 0 <= i < fields.len() ==> (#[trigger] fields[i]).0 != name {
            assert(fields[0].0 != name);
            assert forall|i: int| 0 <= i < t.len() implies (#[trigger] t[i]).0 != name by {
                assert(t[i] == fields[i + 1]);
            }
            assert(JsonView::Object(t).field(name) is None);
        }
    }
}

/// A value is taken for what it is: an integer is had of a number that is one, a text of a string,
/// items of an array, and of nothing else.
pub proof fn values_are_taken_for_what_they_are(
    v: JsonView,
    n: i64,
    text: Seq<char>,
    items: Seq<JsonView>,
)
    ensures
        v.integer() == Some(n) <==> v == JsonView::Number(Some(n)),
        v.text() == Some(text) <==> v == JsonView::Text(text),
        v.items() == Some(items) <==> v == JsonView::Array(items),
{
}

/// Plain values say what they hold, and arrays and objects what their parts say, each in its place.
pub proof fn documents_say_what_they_hold(
    b: bool,
    n: Option<i64>,
    s: String,
    a: Vec<Json>,
    o: Vec<(String, Json)>,
    i: int,
)
    ensures
        Json::Null@ == JsonView::Null,
        Json::Bool(b)@ == JsonView::Bool(b),
        Json::Number(n)@ == JsonView::Number(n),
        Json::Text(s)@ == JsonView::Text(s@),
        Json::Array(a)@ is Array && Json::Array(a)@->Array_0.len() == a@.len(),
        0 <= i < a@.len() ==> Json::Array(a)@->Array_0[i] == a@[i]@,
        Json::Object(o)@ is Object && Json::Object(o)@->Object_0.len() == o@.len(),
        0 <= i < o@.len() ==> Json::Object(o)@->Object_0[i] == (o@[i].0@, o@[i].1@),
{
    lemma_array_view(a);
    lemma_object_view(o);
}

}
