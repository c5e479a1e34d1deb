//! JSON values, their text, and what the library reads out of them.
use crate::text::same_text;
use vstd::prelude::*;

verus! {

/// A JSON value. A number with a fraction or an exponent is kept as its text.
#[derive(Debug, PartialEq)]
pub enum Json {
    Null,
    Bool(bool),
    Integer(i128),
    Fraction(String),
    Text(String),
    Array(Vec<Json>),
    Object(Vec<(String, Json)>),
}

/// What a [`Json`] stands for.
pub enum JsonView {
    Null,
    Bool(bool),
    Integer(int),
    Fraction(Seq<char>),
    Text(Seq<char>),
    Array(Seq<JsonView>),
    Object(Seq<(Seq<char>, JsonView)>),
}

impl Json {
    /// What the value stands for.
    pub open spec fn model(self) -> JsonView
        decreases self,
    {
        match self {
            Json::Null => JsonView::Null,
            Json::Bool(flag) => JsonView::Bool(flag),
            Json::Integer(number) => JsonView::Integer(number as int),
            Json::Fraction(text) => JsonView::Fraction(text@),
            Json::Text(text) => JsonView::Text(text@),
            Json::Array(items) => JsonView::Array(
                Seq::new(
                    items@.len(),
                    |i: int|
                        if 0 <= i < items@.len() {
                            items@[i].model()
                        } else {
                            JsonView::Null
                        },
                ),
            ),
            Json::Object(fields) => JsonView::Object(
                Seq::new(
                    fields@.len(),
                    |i: int|
                        if 0 <= i < fields@.len() {
                            (fields@[i].0@, fields@[i].1.model())
                        } else {
                            (Seq::empty(), JsonView::Null)
                        },
                ),
            ),
        }
    }
}

impl View for Json {
    type V = JsonView;

    open spec fn view(&self) -> JsonView {
        self.model()
    }
}

/// What a sequence of values stands for.
pub open spec fn json_views(values: Seq<Json>) -> Seq<JsonView> {
    Seq::new(values.len(), |i: int| values[i]@)
}

/// What an optional value stands for.
pub open spec fn json_option(value: Option<Json>) -> Option<JsonView> {
    match value {
        Some(value) => Some(value@),
        None => None,
    }
}

/// What the fields of an object stand for.
pub open spec fn field_views(fields: Seq<(String, Json)>) -> Seq<(Seq<char>, JsonView)> {
    Seq::new(fields.len(), |i: int| (fields[i].0@, fields[i].1@))
}

/// The views of the arrays and objects.
pub broadcast proof fn lemma_json_parts(value: Json)
    ensures
        value matches Json::Array(items) ==> #[trigger] value@ == JsonView::Array(
            json_views(items@),
        ),
        value matches Json::Object(fields) ==> value@ == JsonView::Object(field_views(fields@)),
{
    match value {
        Json::Array(items) => {
            assert(value@->Array_0 =~= json_views(items@));
        },
        Json::Object(fields) => {
            assert(value@->Object_0 =~= field_views(fields@));
        },
        _ => {},
    }
}

/// The value of the first field called `key`.
pub open spec fn lookup(fields: Seq<(Seq<char>, JsonView)>, key: Seq<char>) -> Option<JsonView>
    decreases fields.len(),
{
    if fields.len() == 0 {
        None
    } else if fields[0].0 == key {
        Some(fields[0].1)
    } else {
        lookup(fields.skip(1), key)
    }
}

impl JsonView {
    /// An object without fields.
    pub open spec fn object() -> JsonView {
        JsonView::Object(Seq::empty())
    }

    /// The object with one more field at its end.
    pub open spec fn with(self, key: Seq<char>, value: JsonView) -> JsonView {
        JsonView::Object(self->Object_0.push((key, value)))
    }

    /// The object with one more text field at its end.
    pub open spec fn with_text(self, key: Seq<char>, value: Seq<char>) -> JsonView {
        self.with(key, JsonView::Text(value))
    }

    /// An array of one value.
    pub open spec fn single(value: JsonView) -> JsonView {
        JsonView::Array(Seq::empty().push(value))
    }

    /// The field called `key`, where the value is an object that has one.
    pub open spec fn get(self, key: Seq<char>) -> Option<JsonView> {
        match self {
            JsonView::Object(fields) => lookup(fields, key),
            _ => None,
        }
    }

    /// The field called `key`, or null.
    pub open spec fn field(self, key: Seq<char>) -> JsonView {
        match self.get(key) {
            Some(value) => value,
            None => JsonView::Null,
        }
    }

    /// Whether the value can be a record: an object, or the fields in their order, at
    /// least so many and at most so many.
    pub open spec fn is_record(self, least: nat, most: nat) -> bool {
        match self {
            JsonView::Object(_) => true,
            JsonView::Array(items) => least <= items.len() <= most,
            _ => false,
        }
    }

    /// The field called `key` of an object, or the item `index` of an array.
    pub open spec fn element(self, key: Seq<char>, index: nat) -> Option<JsonView> {
        match self {
            JsonView::Object(fields) => lookup(fields, key),
            JsonView::Array(items) => if index < items.len() {
                Some(items[index as int])
            } else {
                None
            },
            _ => None,
        }
    }

    /// The text, where the value is one.
    pub open spec fn as_str(self) -> Option<Seq<char>> {
        match self {
            JsonView::Text(text) => Some(text),
            _ => None,
        }
    }

    /// The text of the field called `key`, where it is one.
    pub open spec fn str_field(self, key: Seq<char>) -> Option<Seq<char>> {
        self.field(key).as_str()
    }

    /// The items, where the value is an array.
    pub open spec fn as_array(self) -> Option<Seq<JsonView>> {
        match self {
            JsonView::Array(items) => Some(items),
            _ => None,
        }
    }

    /// The number, where the value is one that fits `u64`.
    pub open spec fn as_u64(self) -> Option<u64> {
        match self {
            JsonView::Integer(number) => if 0 <= number <= u64::MAX {
                Some(number as u64)
            } else {
                None
            },
            _ => None,
        }
    }

    /// The number, where the value is one that fits `i64`.
    pub open spec fn as_i64(self) -> Option<i64> {
        match self {
            JsonView::Integer(number) => if i64::MIN <= number <= i64::MAX {
                Some(number as i64)
            } else {
                None
            },
            _ => None,
        }
    }
}

/// What `serde_json::from_str` reads from a text, or the words of its error.
pub uninterp spec fn json_read(text: Seq<char>) -> Result<JsonView, Seq<char>>;

/// What a text holds as JSON; none where it is not JSON.
pub open spec fn parsed(text: Seq<char>) -> Option<JsonView> {
    match json_read(text) {
        Ok(value) => Some(value),
        Err(_) => None,
    }
}

/// What a value that was read, or the words of an error, stand for.
pub open spec fn read_view(result: Result<Json, String>) -> Result<JsonView, Seq<char>> {
    match result {
        Ok(value) => Ok(value@),
        Err(words) => Err(words@),
    }
}

/// What `toml::from_str` reads from a text; none where it rejects it.
pub uninterp spec fn toml_parsed(text: Seq<char>) -> Option<JsonView>;

/// The text that `serde_json::to_string` writes for a value.
pub uninterp spec fn printed(value: JsonView) -> Seq<char>;

/// A `serde_json::Value`, which the conversions below take apart and build.
#[verifier::external_type_specification]
#[verifier::external_body]
pub struct ExValue(serde_json::Value);

/// Converts a `serde_json::Value` one for one. Nothing is claimed of it here:
/// [`read_text`] names the result of reading and converting.
#[verifier::external_body]
fn from_value(value: serde_json::Value) -> Json {
    match value {
        serde_json::Value::Null => Json::Null,
        serde_json::Value::Bool(flag) => Json::Bool(flag),
        serde_json::Value::Number(number) => match number.as_i128() {
            Some(integer) => Json::Integer(integer),
            None => Json::Fraction(number.to_string()),
        },
        serde_json::Value::String(text) => Json::Text(text),
        serde_json::Value::Array(items) => Json::Array(items.into_iter().map(from_value).collect()),
        serde_json::Value::Object(fields) => Json::Object(
            fields.into_iter().map(|(key, value)| (key, from_value(value))).collect(),
        ),
    }
}

/// Converts to a `serde_json::Value` one for one. Nothing is claimed of it
/// here: [`write_text`] names the result of converting and writing.
#[verifier::external_body]
fn to_value(value: &Json) -> serde_json::Value {
    match value {
        Json::Null => serde_json::Value::Null,
        Json::Bool(flag) => serde_json::Value::Bool(*flag),
        Json::Integer(number) => serde_json::Number::from_i128(*number).into(),
        Json::Fraction(text) => serde_json::from_str(text).unwrap_or_default(),
        Json::Text(text) => serde_json::Value::String(text.clone()),
        Json::Array(items) => serde_json::Value::Array(items.iter().map(to_value).collect()),
        Json::Object(fields) => serde_json::Value::Object(
            fields.iter().map(|(key, value)| (key.clone(), to_value(value))).collect(),
        ),
    }
}

/// `serde_json::from_str` into a `serde_json::Value`, converted; its error as
/// words. The result is the one that [`json_read`] names.
#[verifier::external_body]
fn read_text(text: &str) -> (result: Result<Json, String>)
    ensures
        read_view(result) == json_read(text@),
{
    serde_json::from_str(text).map(from_value).map_err(|error| error.to_string())
}

/// `toml::from_str` into a `serde_json::Value`, converted. The result is the one
/// that [`toml_parsed`] names.
#[verifier::external_body]
fn read_toml(text: &str) -> (value: Option<Json>)
    ensures
        json_option(value) == toml_parsed(text@),
{
    toml::from_str(text).ok().map(from_value)
}

/// `serde_json::to_string` of the converted value, through `Display` of
/// `serde_json::Value`, which writes the same text and does not fail. The
/// result is the one that [`printed`] names.
#[verifier::external_body]
fn write_text(value: &Json) -> (text: String)
    ensures
        text@ == printed(value@),
{
    to_value(value).to_string()
}

impl Json {
    /// The value that a text holds; none where the text is not JSON.
    pub fn parse(text: &str) -> (value: Option<Json>)
        ensures
            json_option(value) == parsed(text@),
    {
        match read_text(text) {
            Ok(value) => Some(value),
            Err(_) => None,
        }
    }

    /// The value that a text holds; the words of what is wrong where the text is not
    /// JSON.
    pub fn read(text: &str) -> (result: Result<Json, String>)
        ensures
            read_view(result) == json_read(text@),
    {
        read_text(text)
    }

    /// The value that a TOML document holds; none where the text is not TOML.
    pub fn parse_toml(text: &str) -> (value: Option<Json>)
        ensures
            json_option(value) == toml_parsed(text@),
    {
        read_toml(text)
    }

    /// The value as compact JSON text.
    pub fn to_text(&self) -> (text: String)
        ensures
            text@ == printed(self@),
    {
        write_text(self)
    }

    /// The text, where the value is one.
    pub fn as_str(&self) -> (text: Option<&str>)
        ensures
            match text {
                Some(text) => self@.as_str() == Some(text@),
                None => self@.as_str() is None,
            },
    {
        match self {
            Json::Text(text) => Some(text.as_str()),
            _ => None,
        }
    }

    /// The items, where the value is an array.
    pub fn as_array(&self) -> (items: Option<&Vec<Json>>)
        ensures
            match items {
                Some(items) => self@.as_array() == Some(json_views(items@)),
                None => self@.as_array() is None,
            },
    {
        proof {
            lemma_json_parts(*self);
        }
        match self {
            Json::Array(items) => Some(items),
            _ => None,
        }
    }

    /// The number, where the value is one that fits `u64`.
    pub fn as_u64(&self) -> (number: Option<u64>)
        ensures
            number == self@.as_u64(),
    {
        match self {
            Json::Integer(number) => if 0 <= *number && *number <= 0xffff_ffff_ffff_ffff {
                Some(*number as u64)
            } else {
                None
            },
            _ => None,
        }
    }

    /// The number, where the value is one that fits `i64`.
    pub fn as_i64(&self) -> (number: Option<i64>)
        ensures
            number == self@.as_i64(),
    {
        match self {
            Json::Integer(number) => if -0x8000_0000_0000_0000 <= *number && *number
                <= 0x7fff_ffff_ffff_ffff {
                Some(*number as i64)
            } else {
                None
            },
            _ => None,
        }
    }

    /// Whether the value is null.
    pub fn is_null(&self) -> (null: bool)
        ensures
            null == (self@ is Null),
    {
        matches!(self, Json::Null)
    }

    /// Whether the value is an object.
    pub fn is_object(&self) -> (object: bool)
        ensures
            object == (self@ is Object),
    {
        matches!(self, Json::Object(_))
    }

    /// The field called `key`, where the value is an object that has one.
    pub fn get(&self, key: &str) -> (value: Option<&Json>)
        ensures
            match value {
                Some(value) => self@.get(key@) == Some(value@),
                None => self@.get(key@) is None,
            },
    {
        proof {
            lemma_json_parts(*self);
        }
        match self {
            Json::Object(fields) => {
                let ghost all = field_views(fields@);
                let mut i: usize = 0;
                assert(all.skip(0) =~= all);
                while i < fields.len()
                    invariant
                        i <= fields.len(),
                        all == field_views(fields@),
                        self@ == JsonView::Object(all),
                        lookup(all, key@) == lookup(all.skip(i as int), key@),
                    decreases fields.len() - i,
                {
                    assert(all.skip(i as int)[0] == all[i as int]);
                    if same_text(fields[i].0.as_str(), key) {
                        return Some(&fields[i].1);
                    }
                    assert(all.skip(i as int).skip(1) =~= all.skip(i + 1));
                    i += 1;
                }
                None
            },
            _ => None,
        }
    }

    /// Whether the value can be a record: an object, or the fields in their order, at
    /// least so many and at most so many.
    pub fn is_record(&self, least: usize, most: usize) -> (result: bool)
        ensures
            result == self@.is_record(least as nat, most as nat),
    {
        proof {
            lemma_json_parts(*self);
        }
        match self {
            Json::Object(_) => true,
            Json::Array(items) => least <= items.len() && items.len() <= most,
            _ => false,
        }
    }

    /// The field called `key` of an object, or the item `index` of an array.
    pub fn element(&self, key: &str, index: usize) -> (value: Option<&Json>)
        ensures
            match value {
                Some(value) => self@.element(key@, index as nat) == Some(value@),
                None => self@.element(key@, index as nat) is None,
            },
    {
        proof {
            lemma_json_parts(*self);
        }
        match self {
            Json::Array(items) => if index < items.len() {
                Some(&items[index])
            } else {
                None
            },
            _ => self.get(key),
        }
    }

    /// The text of the field called `key`, where it is one.
    pub fn str_field(&self, key: &str) -> (text: Option<&str>)
        ensures
            match text {
                Some(text) => self@.str_field(key@) == Some(text@),
                None => self@.str_field(key@) is None,
            },
    {
        match self.get(key) {
            Some(value) => value.as_str(),
            None => None,
        }
    }

    /// A copy of the field `inner` of the field `outer`; null where there is none.
    pub fn nested(&self, outer: &str, inner: &str) -> (value: Json)
        ensures
            value@ == self@.field(outer@).field(inner@),
    {
        match self.get(outer) {
            Some(value) => value.field(inner),
            None => Json::Null,
        }
    }

    /// A copy of the field called `key`; null where there is none.
    pub fn field(&self, key: &str) -> (value: Json)
        ensures
            value@ == self@.field(key@),
    {
        match self.get(key) {
            Some(value) => value.clone(),
            None => Json::Null,
        }
    }

    /// An object without fields.
    pub fn object() -> (value: Json)
        ensures
            value@ == JsonView::object(),
    {
        let value = Json::Object(Vec::new());
        proof {
            lemma_json_parts(value);
            assert(value@->Object_0 =~= Seq::empty());
        }
        value
    }

    /// The object with one more field at its end.
    pub fn with(self, key: &str, value: Json) -> (result: Json)
        requires
            self@ is Object,
        ensures
            result@ == self@.with(key@, value@),
    {
        proof {
            lemma_json_parts(self);
        }
        match self {
            Json::Object(fields) => {
                let mut fields = fields;
                fields.push((key.to_owned(), value));
                let result = Json::Object(fields);
                proof {
                    lemma_json_parts(result);
                    assert(result@->Object_0 =~= self@->Object_0.push((key@, value@)));
                }
                result
            },
            other => other,
        }
    }

    /// The object with one more text field at its end.
    pub fn with_text(self, key: &str, value: &str) -> (result: Json)
        requires
            self@ is Object,
        ensures
            result@ == self@.with_text(key@, value@),
    {
        self.with(key, Json::Text(value.to_owned()))
    }

    /// A text value.
    pub fn text(value: &str) -> (result: Json)
        ensures
            result@ == JsonView::Text(value@),
    {
        Json::Text(value.to_owned())
    }

    /// An array value.
    pub fn array(items: Vec<Json>) -> (result: Json)
        ensures
            result@ == JsonView::Array(json_views(items@)),
    {
        let result = Json::Array(items);
        proof {
            lemma_json_parts(result);
        }
        result
    }

    /// An array of one value.
    pub fn single(item: Json) -> (result: Json)
        ensures
            result@ == JsonView::single(item@),
    {
        let mut items: Vec<Json> = Vec::new();
        items.push(item);
        assert(json_views(items@) =~= Seq::empty().push(item@));
        Json::array(items)
    }
}

impl Clone for Json {
    fn clone(&self) -> (copy: Self)
        ensures
            copy@ == self@,
        decreases self,
    {
        match self {
            Json::Null => Json::Null,
            Json::Bool(flag) => Json::Bool(*flag),
            Json::Integer(number) => Json::Integer(*number),
            Json::Fraction(text) => Json::Fraction(text.clone()),
            Json::Text(text) => Json::Text(text.clone()),
            Json::Array(items) => {
                let mut copies: Vec<Json> = Vec::new();
                let mut i: usize = 0;
                while i < items.len()
                    invariant
                        i <= items.len(),
                        copies.len() == i,
                        forall|j: int| 0 <= j < i ==> copies[j]@ == items[j]@,
                        self matches Json::Array(own) && own == items,
                    decreases items.len() - i,
                {
                    copies.push(items[i].clone());
                    i += 1;
                }
                let copy = Json::Array(copies);
                proof {
                    lemma_json_parts(copy);
                    lemma_json_parts(*self);
                    assert(json_views(copies@) =~= json_views(items@));
                }
                copy
            },
            Json::Object(fields) => {
                let mut copies: Vec<(String, Json)> = Vec::new();
                let mut i: usize = 0;
                while i < fields.len()
                    invariant
                        i <= fields.len(),
                        copies.len() == i,
                        forall|j: int|
                            0 <= j < i ==> copies[j].0@ == fields[j].0@ && copies[j].1@
                                == fields[j].1@,
                        self matches Json::Object(own) && own == fields,
                    decreases fields.len() - i,
                {
                    copies.push((fields[i].0.clone(), fields[i].1.clone()));
                    i += 1;
                }
                let copy = Json::Object(copies);
                proof {
                    lemma_json_parts(copy);
                    lemma_json_parts(*self);
                    assert(field_views(copies@) =~= field_views(fields@));
                }
                copy
            },
        }
    }
}

/// A copy of a list of values.
pub fn copy_values(values: &Vec<Json>) -> (copies: Vec<Json>)
    ensures
        json_views(copies@) == json_views(values@),
{
    let mut copies: Vec<Json> = Vec::new();
    let mut i: usize = 0;
    while i < values.len()
        invariant
            i <= values.len(),
            copies.len() == i,
            forall|j: int| 0 <= j < i ==> copies[j]@ == values[j]@,
        decreases values.len() - i,
    {
        copies.push(values[i].clone());
        i += 1;
    }
    assert(json_views(copies@) =~= json_views(values@));
    copies
}

/// Appends a value.
pub fn add_value(values: &mut Vec<Json>, value: Json)
    ensures
        json_views(final(values)@) == json_views(old(values)@).push(value@),
{
    values.push(value);
    assert(json_views(values@) =~= json_views(old(values)@).push(value@));
}

proof fn lemma_lookup_push(
    fields: Seq<(Seq<char>, JsonView)>,
    field: (Seq<char>, JsonView),
    key: Seq<char>,
)
    ensures
        lookup(fields.push(field), key) == (match lookup(fields, key) {
            Some(value) => Some(value),
            None => if field.0 == key {
                Some(field.1)
            } else {
                None
            },
        }),
    decreases fields.len(),
{
    let longer = fields.push(field);
    if fields.len() == 0 {
        assert(longer.skip(1) =~= Seq::empty());
        assert(lookup(longer.skip(1), key) is None);
    } else if fields[0].0 != key {
        assert(longer.skip(1) =~= fields.skip(1).push(field));
        lemma_lookup_push(fields.skip(1), field, key);
    }
}

/// A field that is added to an object is found in it, and no other field changes.
pub broadcast proof fn lemma_with(object: JsonView, key: Seq<char>, value: JsonView, wanted: Seq<char>)
    requires
        object is Object,
    ensures
        #[trigger] object.with(key, value).get(wanted) == (match object.get(wanted) {
            Some(found) => Some(found),
            None => if key == wanted {
                Some(value)
            } else {
                None
            },
        }),
{
    lemma_lookup_push(object->Object_0, (key, value), wanted);
}

/// An object that has no fields has none that is called `wanted`.
pub broadcast proof fn lemma_no_fields(wanted: Seq<char>)
    ensures
        #[trigger] JsonView::object().get(wanted) is None,
{
}

} // verus!
