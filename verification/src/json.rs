//! JSON values.
use vstd::prelude::*;
use serde_json::Value;
use crate::text::{same, Text};

verus! {

/// A JSON value. A number is held as the machine integer it is, or, where it
/// is not one, as the bits of its double.
#[derive(Debug)]
pub enum Json {
    Null,
    Bool(bool),
    Unsigned(u64),
    /// Only for numbers below zero.
    Negative(i64),
    Float(u64),
    Str(String),
    Array(Vec<Json>),
    /// Where a name occurs twice, its last value counts.
    Object(Vec<(String, Json)>),
}

/// A JSON value as the contracts see it.
pub enum JsonView {
    Null,
    Bool(bool),
    Unsigned(u64),
    Negative(i64),
    Float(u64),
    Str(Text),
    Array(Seq<JsonView>),
    Object(Map<Text, JsonView>),
}

pub open spec fn json_view(j: Json) -> JsonView
    decreases j,
{
    match j {
        Json::Null => JsonView::Null,
        Json::Bool(b) => JsonView::Bool(b),
        Json::Unsigned(n) => JsonView::Unsigned(n),
        Json::Negative(n) => JsonView::Negative(n),
        Json::Float(n) => JsonView::Float(n),
        Json::Str(s) => JsonView::Str(s@),
        Json::Array(items) => JsonView::Array(array_view(items@)),
        Json::Object(fields) => JsonView::Object(object_view(fields@)),
    }
}

pub open spec fn array_view(items: Seq<Json>) -> Seq<JsonView>
    decreases items,
{
    if items.len() == 0 {
        Seq::empty()
    } else {
        array_view(items.drop_last()).push(json_view(items.last()))
    }
}

pub open spec fn object_view(fields: Seq<(String, Json)>) -> Map<Text, JsonView>
    decreases fields,
{
    if fields.len() == 0 {
        Map::empty()
    } else {
        object_view(fields.drop_last()).insert(fields.last().0@, json_view(fields.last().1))
    }
}

impl View for Json {
    type V = JsonView;

    open spec fn view(&self) -> JsonView {
        json_view(*self)
    }
}

impl JsonView {
    /// The text, where the value is one.
    pub open spec fn text(self) -> Option<Text> {
        match self {
            JsonView::Str(s) => Some(s),
            _ => None,
        }
    }

    /// The number, where the value is one that fits 64 bits without a sign.
    pub open spec fn unsigned(self) -> Option<u64> {
        match self {
            JsonView::Unsigned(n) => Some(n),
            _ => None,
        }
    }

    /// The number, where the value is one that fits 64 bits with a sign.
    pub open spec fn signed(self) -> Option<i64> {
        match self {
            JsonView::Unsigned(n) => if n <= i64::MAX {
                Some(n as i64)
            } else {
                None
            },
            JsonView::Negative(n) => Some(n),
            _ => None,
        }
    }

    /// The value that an object has under a name.
    pub open spec fn field(self, name: Text) -> Option<JsonView> {
        match self {
            JsonView::Object(fields) => if fields.contains_key(name) {
                Some(fields[name])
            } else {
                None
            },
            _ => None,
        }
    }

    /// The element of an array.
    pub open spec fn element(self, i: int) -> Option<JsonView> {
        match self {
            JsonView::Array(items) => if 0 <= i < items.len() {
                Some(items[i])
            } else {
                None
            },
            _ => None,
        }
    }
}

/// The elements of an array keep their places.
pub proof fn lemma_array_view(items: Seq<Json>)
    ensures
        array_view(items).len() == items.len(),
        forall|i: int| 0 <= i < items.len() ==> #[trigger] array_view(items)[i] == json_view(items[i]),
    decreases items.len(),
{
    if items.len() > 0 {
        lemma_array_view(items.drop_last());
        assert forall|i: int| 0 <= i < items.len() implies #[trigger] array_view(items)[i]
            == json_view(items[i]) by {
            if i < items.len() - 1 {
                assert(array_view(items.drop_last())[i] == json_view(items.drop_last()[i]));
            }
        }
    }
}

/// What an object holds under a name is the last value given to it.
proof fn lemma_object_view(fields: Seq<(String, Json)>, name: Text, at: int)
    requires
        -1 <= at < fields.len(),
        at >= 0 ==> fields[at].0@ == name,
        forall|k: int| at < k < fields.len() ==> (#[trigger] fields[k]).0@ != name,
    ensures
        object_view(fields).contains_key(name) == (at >= 0),
        at >= 0 ==> object_view(fields)[name] == json_view(fields[at].1),
    decreases fields.len(),
{
    if fields.len() > 0 && at < fields.len() - 1 {
        let rest = fields.drop_last();
        assert(fields.last() == fields[fields.len() - 1]);
        lemma_object_view(rest, name, at);
    }
}

impl Json {
    /// The text, where the value is one.
    pub fn as_str(&self) -> (r: Option<&str>)
        ensures
            match r {
                Some(s) => self@.text() == Some(s@),
                None => self@.text() is None,
            },
    {
        match self {
            Json::Str(s) => Some(s.as_str()),
            _ => None,
        }
    }

    /// The number, where the value is one that fits 64 bits without a sign.
    pub fn as_u64(&self) -> (r: Option<u64>)
        ensures
            r == self@.unsigned(),
    {
        match self {
            Json::Unsigned(n) => Some(*n),
            _ => None,
        }
    }

    /// The number, where the value is one that fits 64 bits with a sign.
    pub fn as_i64(&self) -> (r: Option<i64>)
        ensures
            r == self@.signed(),
    {
        match self {
            Json::Unsigned(n) => if *n <= 0x7fff_ffff_ffff_ffff {
                Some(*n as i64)
            } else {
                None
            },
            Json::Negative(n) => Some(*n),
            _ => None,
        }
    }

    /// The value that an object has under a name.
    pub fn get(&self, name: &str) -> (r: Option<&Json>)
        ensures
            match r {
                Some(v) => self@.field(name@) == Some(v@),
                None => self@.field(name@) is None,
            },
    {
        match self {
            Json::Object(fields) => {
                let mut i: usize = fields.len();
                while i > 0
                    invariant
                        i <= fields@.len(),
                        *self == Json::Object(*fields),
                        forall|k: int| i <= k < fields@.len() ==> (#[trigger] fields@[k]).0@ != name@,
                    decreases i,
                {
                    i = i - 1;
                    if same(fields[i].0.as_str(), name) {
                        proof {
                            lemma_object_view(fields@, name@, i as int);
                        }
                        return Some(&fields[i].1);
                    }
                }
                proof {
                    lemma_object_view(fields@, name@, -1);
                }
                None
            },
            _ => None,
        }
    }

    /// The elements, where the value is an array.
    pub fn as_array(&self) -> (r: Option<&Vec<Json>>)
        ensures
            match r {
                Some(items) => self@ == JsonView::Array(array_view(items@)),
                None => !(self@ is Array),
            },
    {
        match self {
            Json::Array(items) => Some(items),
            _ => None,
        }
    }

    /// The element of an array.
    pub fn at(&self, i: usize) -> (r: Option<&Json>)
        ensures
            match r {
                Some(v) => self@.element(i as int) == Some(v@),
                None => self@.element(i as int) is None,
            },
    {
        match self {
            Json::Array(items) => {
                proof {
                    lemma_array_view(items@);
                }
                if i < items.len() {
                    Some(&items[i])
                } else {
                    None
                }
            },
            _ => None,
        }
    }

    /// An object without fields.
    pub fn object() -> (r: Json)
        ensures
            r@ == JsonView::Object(Map::empty()),
    {
        let fields: Vec<(String, Json)> = Vec::new();
        Json::Object(fields)
    }

    /// An object with one field more.
    pub fn with(self, name: &str, value: Json) -> (r: Json)
        requires
            self@ is Object,
        ensures
            r@ == JsonView::Object(self@->Object_0.insert(name@, value@)),
    {
        match self {
            Json::Object(fields) => {
                let mut fields = fields;
                let ghost before = fields@;
                fields.push((name.to_owned(), value));
                proof {
                    assert(fields@.drop_last() =~= before);
                }
                Json::Object(fields)
            },
            other => other,
        }
    }

    /// A text, or null where there is none.
    pub fn text_or_null(o: &Option<String>) -> (r: Json)
        ensures
            r@ == text_view(crate::text::opt(*o)),
    {
        match o {
            Some(s) => Json::Str(s.clone()),
            None => Json::Null,
        }
    }

    /// A whole number, or null where there is none.
    pub fn whole_or_null(o: Option<i64>) -> (r: Json)
        ensures
            r@ == whole_view(o),
    {
        match o {
            Some(n) => Json::whole(n),
            None => Json::Null,
        }
    }

    /// A process number, or null where there is none.
    pub fn pid_or_null(o: Option<u32>) -> (r: Json)
        ensures
            r@ == pid_view(o),
    {
        match o {
            Some(n) => Json::Unsigned(n as u64),
            None => Json::Null,
        }
    }

    /// A list of texts.
    pub fn texts(list: &Vec<String>) -> (r: Json)
        ensures
            r@ == JsonView::Array(text_views(crate::text::views(list@))),
    {
        let ghost all = text_views(crate::text::views(list@));
        let mut out = Items::new();
        let mut i: usize = 0;
        while i < list.len()
            invariant
                i <= list@.len(),
                all == text_views(crate::text::views(list@)),
                out@ == all.take(i as int),
            decreases list@.len() - i,
        {
            proof {
                assert(all.take(i + 1) =~= all.take(i as int).push(JsonView::Str(list@[i as int]@)));
            }
            out.item(Json::Str(list[i].clone()));
            i = i + 1;
        }
        proof {
            assert(all.take(i as int) =~= all);
        }
        out.array()
    }

    /// A text.
    pub fn string(s: &str) -> (r: Json)
        ensures
            r@ == JsonView::Str(s@),
    {
        Json::Str(s.to_owned())
    }

    /// A whole number.
    pub fn whole(n: i64) -> (r: Json)
        ensures
            r@ == int_view(n),
    {
        if n < 0 {
            Json::Negative(n)
        } else {
            Json::Unsigned(n as u64)
        }
    }

    /// A copy of a value.
    pub fn copy(&self) -> (r: Json)
        ensures
            r@ == self@,
        decreases self,
    {
        match self {
            Json::Null => Json::Null,
            Json::Bool(b) => Json::Bool(*b),
            Json::Unsigned(n) => Json::Unsigned(*n),
            Json::Negative(n) => Json::Negative(*n),
            Json::Float(n) => Json::Float(*n),
            Json::Str(s) => Json::Str(s.clone()),
            Json::Array(items) => {
                let mut out: Vec<Json> = Vec::new();
                let mut i: usize = 0;
                proof {
                    assert(items@.take(0) =~= Seq::empty());
                }
                while i < items.len()
                    invariant
                        i <= items@.len(),
                        decreases_to!(self => items),
                        array_view(out@) == array_view(items@.take(i as int)),
                    decreases items@.len() - i,
                {
                    let ghost before = out@;
                    out.push(items[i].copy());
                    i = i + 1;
                    proof {
                        assert(out@.drop_last() =~= before);
                        assert(items@.take(i as int).drop_last() =~= items@.take(i - 1));
                    }
                }
                proof {
                    assert(items@.take(i as int) =~= items@);
                }
                Json::Array(out)
            },
            Json::Object(fields) => {
                let mut out: Vec<(String, Json)> = Vec::new();
                let mut i: usize = 0;
                proof {
                    assert(fields@.take(0) =~= Seq::empty());
                }
                while i < fields.len()
                    invariant
                        i <= fields@.len(),
                        decreases_to!(self => fields),
                        object_view(out@) == object_view(fields@.take(i as int)),
                    decreases fields@.len() - i,
                {
                    let ghost before = out@;
                    out.push((fields[i].0.clone(), fields[i].1.copy()));
                    i = i + 1;
                    proof {
                        assert(out@.drop_last() =~= before);
                        assert(fields@.take(i as int).drop_last() =~= fields@.take(i - 1));
                    }
                }
                proof {
                    assert(fields@.take(i as int) =~= fields@);
                }
                Json::Object(out)
            },
        }
    }
}

/// A whole number as a JSON value.
pub open spec fn int_view(n: i64) -> JsonView {
    if n < 0 {
        JsonView::Negative(n)
    } else {
        JsonView::Unsigned(n as u64)
    }
}

/// An optional text as a JSON value.
pub open spec fn text_view(o: Option<Text>) -> JsonView {
    match o {
        Some(s) => JsonView::Str(s),
        None => JsonView::Null,
    }
}

/// An optional whole number as a JSON value.
pub open spec fn whole_view(o: Option<i64>) -> JsonView {
    match o {
        Some(n) => int_view(n),
        None => JsonView::Null,
    }
}

/// An optional process number as a JSON value.
pub open spec fn pid_view(o: Option<u32>) -> JsonView {
    match o {
        Some(n) => JsonView::Unsigned(n as u64),
        None => JsonView::Null,
    }
}

/// Texts as JSON values.
pub open spec fn text_views(list: Seq<Text>) -> Seq<JsonView> {
    Seq::new(list.len(), |i: int| JsonView::Str(list[i]))
}

/// A list of values in the making.
pub struct Items {
    list: Vec<Json>,
}

impl View for Items {
    type V = Seq<JsonView>;

    closed spec fn view(&self) -> Seq<JsonView> {
        array_view(self.list@)
    }
}

impl Items {
    /// No values yet.
    pub fn new() -> (r: Self)
        ensures
            r@ == Seq::<JsonView>::empty(),
    {
        let list: Vec<Json> = Vec::new();
        Items { list }
    }

    /// Adds a value.
    pub fn item(&mut self, value: Json)
        ensures
            final(self)@ == old(self)@.push(value@),
    {
        let ghost before = self.list@;
        self.list.push(value);
        proof {
            assert(self.list@.drop_last() =~= before);
        }
    }

    /// The array of the values.
    pub fn array(self) -> (r: Json)
        ensures
            r@ == JsonView::Array(self@),
    {
        Json::Array(self.list)
    }
}

// ---------------------------------------------------------------------------
// Reading
// ---------------------------------------------------------------------------
/// `serde_json::Value`: what the parser hands out.
#[verifier::external_type_specification]
#[verifier::external_body]
pub struct ExValue(Value);

/// What a `serde_json::Value` holds.
pub uninterp spec fn contents(value: Value) -> JsonView;

/// What `serde_json` reads a text as: nothing where the text is not JSON.
pub uninterp spec fn parsed(text: Seq<char>) -> Option<JsonView>;

/// `serde_json::from_str` into a `serde_json::Value`: the JSON grammar is not
/// spelled out here, only that the result is a function of the text.
#[verifier::external_body]
fn read_value(text: &str) -> (r: Option<Value>)
    ensures
        match r {
            Some(value) => parsed(text@) == Some(contents(value)),
            None => parsed(text@) is None,
        },
{
    serde_json::from_str::<Value>(text).ok()
}

/// Moves a `serde_json::Value` into a value of this library, variant by
/// variant; `Number::as_u64` and `Number::as_i64` tell a number's kinds apart.
#[verifier::external_body]
fn from_value(value: Value) -> (r: Json)
    ensures
        r@ == contents(value),
{
    match value {
        Value::Null => Json::Null,
        Value::Bool(b) => Json::Bool(b),
        Value::Number(n) => match (n.as_u64(), n.as_i64()) {
            (Some(u), _) => Json::Unsigned(u),
            (_, Some(i)) => Json::Negative(i),
            _ => Json::Float(n.as_f64().map_or(0, |x| x.to_bits())),
        },
        Value::String(s) => Json::Str(s),
        Value::Array(a) => Json::Array(a.into_iter().map(from_value).collect()),
        Value::Object(o) => {
            Json::Object(o.into_iter().map(|(k, v)| (k, from_value(v))).collect())
        },
    }
}

/// Reads a text as JSON.
pub fn parse(text: &str) -> (r: Option<Json>)
    ensures
        crate::text::opt(r) == parsed(text@),
{
    match read_value(text) {
        Some(value) => Some(from_value(value)),
        None => None,
    }
}

// ---------------------------------------------------------------------------
// Writing
// ---------------------------------------------------------------------------
/// A value that holds no double. No number with a sign stands where one
/// without a sign belongs.
pub open spec fn plain(v: JsonView) -> bool
    decreases v,
{
    match v {
        JsonView::Negative(n) => n < 0,
        JsonView::Float(_) => false,
        JsonView::Array(items) => forall|i: int|
            0 <= i < items.len() ==> plain(#[trigger] items[i]),
        JsonView::Object(fields) => forall|name: Text| #[trigger]
            fields.contains_key(name) ==> plain(fields[name]),
        _ => true,
    }
}

/// Plain fields make a plain object.
pub broadcast proof fn lemma_plain_fields(fields: Map<Text, JsonView>, name: Text, value: JsonView)
    requires
        plain(JsonView::Object(fields)),
        plain(value),
    ensures
        #[trigger] plain(JsonView::Object(fields.insert(name, value))),
{
    let before = JsonView::Object(fields);
    let all = fields.insert(name, value);
    assert(before->Object_0 == fields);
    assert forall|other: Text| #[trigger] all.contains_key(other) implies plain(all[other]) by {
        if other != name {
            assert(before->Object_0.contains_key(other));
        }
    }
}

/// An object without fields is plain.
pub broadcast proof fn lemma_plain_object()
    ensures
        #[trigger] plain(JsonView::Object(Map::empty())),
{
}

/// Plain items make a plain array.
pub proof fn lemma_plain_items(items: Seq<JsonView>)
    requires
        forall|i: int| 0 <= i < items.len() ==> plain(#[trigger] items[i]),
    ensures
        plain(JsonView::Array(items)),
{
}

pub broadcast group group_plain {
    lemma_plain_fields,
    lemma_plain_object,
}

/// The place of the last value that is given to a name.
proof fn lemma_last_of_name(fields: Seq<(String, Json)>, name: Text) -> (at: int)
    requires
        object_view(fields).contains_key(name),
    ensures
        0 <= at < fields.len(),
        fields[at].0@ == name,
        forall|k: int| at < k < fields.len() ==> (#[trigger] fields[k]).0@ != name,
        object_view(fields)[name] == json_view(fields[at].1),
    decreases fields.len(),
{
    let last = fields.len() - 1;
    if fields.last().0@ == name {
        last
    } else {
        let rest = fields.drop_last();
        let at = lemma_last_of_name(rest, name);
        assert forall|k: int| at < k < fields.len() implies (#[trigger] fields[k]).0@ != name by {
            if k < last {
                assert(rest[k].0@ != name);
            }
        }
        at
    }
}

/// Whether a field is overridden by a later one.
pub open spec fn overridden(fields: Seq<(String, Json)>, i: int) -> bool {
    exists|k: int| i < k < fields.len() && (#[trigger] fields[k]).0@ == fields[i].0@
}

/// Whether a field is overridden by a later one.
fn is_overridden(fields: &Vec<(String, Json)>, i: usize) -> (r: bool)
    requires
        i < fields@.len(),
    ensures
        r == overridden(fields@, i as int),
{
    let n: usize = fields.len();
    let mut k: usize = i + 1;
    while k < n
        invariant
            i < k <= n,
            n == fields@.len(),
            forall|j: int| i < j < k ==> (#[trigger] fields@[j]).0@ != fields@[i as int].0@,
        decreases n - k,
    {
        if same(fields[k].0.as_str(), fields[i].0.as_str()) {
            return true;
        }
        k = k + 1;
    }
    false
}

impl Json {
    /// Whether the value holds no double, nor a number with a sign where one
    /// without a sign belongs.
    pub fn is_plain(&self) -> (r: bool)
        ensures
            r == plain(self@),
        decreases self,
    {
        match self {
            Json::Negative(n) => *n < 0,
            Json::Float(_) => false,
            Json::Array(items) => {
                proof {
                    lemma_array_view(items@);
                }
                let mut i: usize = 0;
                while i < items.len()
                    invariant
                        i <= items@.len(),
                        decreases_to!(self => items),
                        self@ == JsonView::Array(array_view(items@)),
                        array_view(items@).len() == items@.len(),
                        forall|k: int|
                            0 <= k < items@.len() ==> #[trigger] array_view(items@)[k] == json_view(
                                items@[k],
                            ),
                        forall|k: int| 0 <= k < i ==> plain(#[trigger] array_view(items@)[k]),
                    decreases items@.len() - i,
                {
                    if !items[i].is_plain() {
                        proof {
                            assert(!plain(self@->Array_0[i as int]));
                        }
                        return false;
                    }
                    i = i + 1;
                }
                true
            },
            Json::Object(fields) => {
                let mut i: usize = 0;
                while i < fields.len()
                    invariant
                        i <= fields@.len(),
                        decreases_to!(self => fields),
                        self@ == JsonView::Object(object_view(fields@)),
                        forall|k: int|
                            0 <= k < i && !overridden(fields@, k) ==> plain(
                                json_view((#[trigger] fields@[k]).1),
                            ),
                    decreases fields@.len() - i,
                {
                    if !is_overridden(fields, i) && !fields[i].1.is_plain() {
                        proof {
                            let name = fields@[i as int].0@;
                            lemma_object_view(fields@, name, i as int);
                            assert(self@->Object_0.contains_key(name));
                        }
                        return false;
                    }
                    i = i + 1;
                }
                proof {
                    let all = object_view(fields@);
                    assert forall|name: Text| #[trigger] all.contains_key(name) implies plain(
                        all[name],
                    ) by {
                        let at = lemma_last_of_name(fields@, name);
                        assert(!overridden(fields@, at));
                    }
                }
                true
            },
            _ => true,
        }
    }
}

/// Moves a value of this library into a `serde_json::Value`, variant by
/// variant. `Value::from` takes integers as they are, and of the fields that
/// are collected under one name the last stays. A double is not moved.
#[verifier::external_body]
fn to_value(json: &Json) -> (r: Value)
    requires
        plain(json@),
    ensures
        contents(r) == json@,
{
    match json {
        Json::Null | Json::Float(_) => Value::Null,
        Json::Bool(b) => Value::from(*b),
        Json::Unsigned(n) => Value::from(*n),
        Json::Negative(n) => Value::from(*n),
        Json::Str(s) => Value::from(s.as_str()),
        Json::Array(items) => items.iter().map(to_value).collect(),
        Json::Object(fields) => fields.iter().map(|(k, v)| (k.clone(), to_value(v))).collect(),
    }
}

/// What `serde_json` writes for a value over several lines.
pub uninterp spec fn pretty_text(value: JsonView) -> Seq<char>;

/// What `serde_json` writes for a value on a single line.
pub uninterp spec fn compact_text(value: JsonView) -> Seq<char>;

/// `serde_json::to_string_pretty`: the layout is not spelled out here, only
/// that the text is a function of what the value holds. The names in a
/// `serde_json::Value` are texts, so the call does not fail.
#[verifier::external_body]
fn write_pretty(value: &Value) -> (r: String)
    ensures
        r@ == pretty_text(contents(*value)),
{
    serde_json::to_string_pretty(value).unwrap_or_default()
}

/// `serde_json::Value` through its `Display`: the layout is not spelled out
/// here, only that the text is a function of what the value holds.
#[verifier::external_body]
fn write_compact(value: &Value) -> (r: String)
    ensures
        r@ == compact_text(contents(*value)),
{
    value.to_string()
}

impl Json {
    /// The text of a plain value, laid out over several lines.
    pub fn pretty(&self) -> (r: Option<String>)
        ensures
            crate::text::opt(r) == if plain(self@) {
                Some(pretty_text(self@))
            } else {
                None
            },
    {
        if self.is_plain() {
            Some(write_pretty(&to_value(self)))
        } else {
            None
        }
    }

    /// The text of a plain value, on a single line.
    pub fn compact(&self) -> (r: Option<String>)
        ensures
            crate::text::opt(r) == if plain(self@) {
                Some(compact_text(self@))
            } else {
                None
            },
    {
        if self.is_plain() {
            Some(write_compact(&to_value(self)))
        } else {
            None
        }
    }
}

// ---------------------------------------------------------------------------
// What holds of values
// ---------------------------------------------------------------------------
/// A whole number is read back as the one that was put in, whatever its sign; a
/// number that does not fit with a sign is not read as one that does, and what is
/// not a number is not read as one.
pub proof fn law_numbers_come_back(n: i64, u: u64, v: JsonView)
    ensures
        int_view(n).signed() == Some(n),
        n >= 0 ==> int_view(n).unsigned() == Some(n as u64),
        n < 0 ==> int_view(n).unsigned() is None,
        JsonView::Unsigned(u).unsigned() == Some(u),
        u <= i64::MAX ==> JsonView::Unsigned(u).signed() == Some(u as i64),
        u > i64::MAX ==> JsonView::Unsigned(u).signed() is None,
        !(v is Unsigned) && !(v is Negative) ==> v.signed() is None && v.unsigned() is None,
        whole_view(Some(n)).signed() == Some(n),
        whole_view(None) == JsonView::Null,
{
}

/// A text is read back as the one that was put in, and what is not a text is not
/// read as one.
pub proof fn law_texts_come_back(s: Text, v: JsonView)
    ensures
        JsonView::Str(s).text() == Some(s),
        !(v is Str) ==> v.text() is None,
        text_view(Some(s)).text() == Some(s),
        text_view(None) == JsonView::Null,
{
}

/// An object gives under each name the last value that was put there, and nothing
/// under a name that was never used; what is not an object gives nothing.
pub proof fn law_fields_come_back(
    fields: Seq<(String, Json)>,
    name: String,
    value: Json,
    other: Text,
    v: JsonView,
)
    ensures
        ({
            let before = JsonView::Object(object_view(fields));
            let after = JsonView::Object(object_view(fields.push((name, value))));
            &&& after.field(name@) == Some(value@)
            &&& other != name@ ==> after.field(other) == before.field(other)
        }),
        JsonView::Object(object_view(Seq::empty())).field(other) is None,
        !(v is Object) ==> v.field(other) is None,
{
    assert(fields.push((name, value)).drop_last() =~= fields);
}

/// An array gives its elements in their places and nothing beyond; what is not an
/// array gives nothing.
pub proof fn law_elements_come_back(items: Seq<Json>, i: int, v: JsonView)
    ensures
        0 <= i < items.len() ==> JsonView::Array(array_view(items)).element(i) == Some(items[i]@),
        i < 0 || i >= items.len() ==> JsonView::Array(array_view(items)).element(i) is None,
        !(v is Array) ==> v.element(i) is None,
{
    lemma_array_view(items);
}

} // verus!
