//! JSON documents: the values that replies and exports are read from and that views are
//! written as.

use crate::number::{int_text, int_to_text, size_to_text};
use crate::order::text_before;
use crate::text::{opt_text, owned, push_text, texts};
use vstd::prelude::*;

verus! {

/// A JSON value. A number keeps its text, and its value where it is a 64-bit integer.
pub enum Json {
    Null,
    Bool(bool),
    Number { whole: Option<i64>, text: String },
    Str(String),
    Array(Vec<Json>),
    Object(Vec<(String, Json)>),
}

/// The model of a JSON value.
#[verifier::ext_equal]
pub enum JsonView {
    Null,
    Bool(bool),
    Number { whole: Option<i64>, text: Seq<char> },
    Str(Seq<char>),
    Array(Seq<JsonView>),
    Object(Seq<(Seq<char>, JsonView)>),
}

impl View for Json {
    type V = JsonView;

    open spec fn view(&self) -> JsonView
        decreases self,
    {
        match self {
            Json::Null => JsonView::Null,
            Json::Bool(b) => JsonView::Bool(*b),
            Json::Number { whole, text } => JsonView::Number { whole: *whole, text: text@ },
            Json::Str(s) => JsonView::Str(s@),
            Json::Array(a) => JsonView::Array(
                Seq::new(
                    a@.len(),
                    |i: int|
                        if 0 <= i < a@.len() {
                            a@[i].view()
                        } else {
                            JsonView::Null
                        },
                ),
            ),
            Json::Object(o) => JsonView::Object(
                Seq::new(
                    o@.len(),
                    |i: int|
                        if 0 <= i < o@.len() {
                            (o@[i].0@, o@[i].1.view())
                        } else {
                            (Seq::<char>::empty(), JsonView::Null)
                        },
                ),
            ),
        }
    }
}

/// The views of a list of values.
pub open spec fn items(v: Seq<Json>) -> Seq<JsonView> {
    v.map_values(|j: Json| j@)
}

/// The views of a list of fields.
pub open spec fn fields(v: Seq<(String, Json)>) -> Seq<(Seq<char>, JsonView)> {
    v.map_values(|f: (String, Json)| (f.0@, f.1@))
}

/// The view of an array is made of the views of its items.
pub proof fn lemma_array(v: Vec<Json>)
    ensures
        Json::Array(v)@ == JsonView::Array(items(v@)),
{
    reveal_with_fuel(<Json as View>::view, 2);
    assert(Json::Array(v)@->Array_0 =~= items(v@));
}

/// The view of an object is made of the views of its fields.
pub proof fn lemma_object(v: Vec<(String, Json)>)
    ensures
        Json::Object(v)@ == JsonView::Object(fields(v@)),
{
    reveal_with_fuel(<Json as View>::view, 2);
    assert(Json::Object(v)@->Object_0 =~= fields(v@));
}

/// Declares `serde_json::Value`, of which nothing is said: it only passes through.
#[verifier::external_type_specification]
#[verifier::external_body]
pub struct ExValue(serde_json::Value);

/// Turns a `serde_json::Value` into the library's own type, variant by variant. A number
/// gives its `as_i64` and its `Display` form; an object gives its entries in the order in
/// which serde_json's map walks them. Nothing is promised of the result here.
#[verifier::external_body]
fn from_value(v: serde_json::Value) -> (r: Json) {
    match v {
        serde_json::Value::Null => Json::Null,
        serde_json::Value::Bool(b) => Json::Bool(b),
        serde_json::Value::Number(n) => Json::Number { whole: n.as_i64(), text: n.to_string() },
        serde_json::Value::String(s) => Json::Str(s),
        serde_json::Value::Array(a) => Json::Array(a.into_iter().map(from_value).collect()),
        serde_json::Value::Object(o) => Json::Object(
            o.into_iter().map(|(k, v)| (k, from_value(v))).collect(),
        ),
    }
}

/// What serde_json reads from a text: a value, or the message of its error.
pub uninterp spec fn json_read(text: Seq<char>) -> Result<JsonView, Seq<char>>;

/// Calls `serde_json::from_str`, whose result depends on the text alone, and turns the value
/// into the library's own type and the error into its message.
#[verifier::external_body]
pub(crate) fn parse_json(text: &str) -> (r: Result<Json, String>)
    ensures
        match r {
            Ok(j) => json_read(text@) == Ok::<JsonView, Seq<char>>(j@),
            Err(e) => json_read(text@) == Err::<JsonView, Seq<char>>(e@),
        },
{
    match serde_json::from_str::<serde_json::Value>(text) {
        Ok(v) => Ok(from_value(v)),
        Err(e) => Err(e.to_string()),
    }
}

/// The value of the first field with a given name.
pub open spec fn field_of(o: Seq<(Seq<char>, JsonView)>, key: Seq<char>) -> Option<JsonView>
    decreases o.len(),
{
    if o.len() == 0 {
        None
    } else {
        match field_of(o.drop_last(), key) {
            Some(j) => Some(j),
            None => if o.last().0 == key {
                Some(o.last().1)
            } else {
                None
            },
        }
    }
}

/// The value of a field of an object; nothing has fields but an object.
pub open spec fn member(j: JsonView, key: Seq<char>) -> Option<JsonView> {
    match j {
        JsonView::Object(o) => field_of(o, key),
        _ => None,
    }
}

/// The text of a string value.
pub open spec fn str_of(j: Option<JsonView>) -> Option<Seq<char>> {
    match j {
        Some(JsonView::Str(s)) => Some(s),
        _ => None,
    }
}

/// The items of an array value.
pub open spec fn items_of(j: Option<JsonView>) -> Option<Seq<JsonView>> {
    match j {
        Some(JsonView::Array(a)) => Some(a),
        _ => None,
    }
}

/// The fields of an object value.
pub open spec fn fields_of(j: Option<JsonView>) -> Option<Seq<(Seq<char>, JsonView)>> {
    match j {
        Some(JsonView::Object(o)) => Some(o),
        _ => None,
    }
}

/// The value of an integer.
pub open spec fn whole_of(j: Option<JsonView>) -> Option<i64> {
    match j {
        Some(JsonView::Number { whole, text }) => whole,
        _ => None,
    }
}

/// The value of a Boolean.
pub open spec fn bool_of(j: Option<JsonView>) -> Option<bool> {
    match j {
        Some(JsonView::Bool(b)) => Some(b),
        _ => None,
    }
}

/// The text of a field that is a string.
pub open spec fn str_at(j: JsonView, key: Seq<char>) -> Option<Seq<char>> {
    str_of(member(j, key))
}

/// The value at the end of two fields, one in the other.
pub open spec fn member2(j: JsonView, a: Seq<char>, b: Seq<char>) -> Option<JsonView> {
    match member(j, a) {
        Some(k) => member(k, b),
        None => None,
    }
}

/// The view of an optional value.
pub open spec fn opt_json(o: Option<&Json>) -> Option<JsonView> {
    match o {
        Some(j) => Some(j@),
        None => None,
    }
}

/// The value of a field is that of the first field of its name.
pub proof fn first_field_counts(o: Seq<(Seq<char>, JsonView)>, key: Seq<char>, at: int)
    requires
        0 <= at <= o.len(),
        forall|i: int| 0 <= i < at ==> (#[trigger] o[i]).0 != key,
        at < o.len() ==> o[at].0 == key,
    ensures
        field_of(o, key) == if at < o.len() {
            Some(o[at].1)
        } else {
            None
        },
    decreases o.len(),
{
    if o.len() > 0 {
        let front = o.drop_last();
        if at < front.len() {
            first_field_counts(front, key, at);
        } else {
            assert forall|i: int| 0 <= i < front.len() implies (#[trigger] front[i]).0 != key by {
                assert(front[i] == o[i]);
            }
            first_field_counts(front, key, front.len() as int);
            if at == o.len() {
                assert(o[at - 1].0 != key);
            }
        }
    }
}

proof fn lemma_field_stays(o: Seq<(Seq<char>, JsonView)>, key: Seq<char>, n: int)
    requires
        0 <= n <= o.len(),
        field_of(o.take(n), key) is Some,
    ensures
        field_of(o, key) == field_of(o.take(n), key),
    decreases o.len(),
{
    if n < o.len() {
        assert(o.drop_last().take(n) =~= o.take(n));
        lemma_field_stays(o.drop_last(), key, n);
    } else {
        assert(o.take(n) =~= o);
    }
}

/// Looks a field up by its name.
pub fn find_field<'a>(o: &'a Vec<(String, Json)>, key: &str) -> (r: Option<&'a Json>)
    ensures
        opt_json(r) == field_of(fields(o@), key@),
{
    let ghost all = fields(o@);
    for i in 0..o.len()
        invariant
            all == fields(o@),
            field_of(all.take(i as int), key@) is None,
    {
        assert(all.take(i as int + 1).drop_last() =~= all.take(i as int));
        assert(all[i as int] == (o@[i as int].0@, o@[i as int].1@));
        if *o[i].0.as_str() == *key {
            proof {
                lemma_field_stays(all, key@, i as int + 1);
            }
            return Some(&o[i].1);
        }
    }
    assert(all.take(o@.len() as int) =~= all);
    None
}

impl Json {
    /// The value of a field.
    pub fn get<'a>(&'a self, key: &str) -> (r: Option<&'a Json>)
        ensures
            opt_json(r) == member(self@, key@),
    {
        match self {
            Json::Object(o) => {
                proof {
                    lemma_object(*o);
                }
                find_field(o, key)
            },
            _ => None,
        }
    }

    /// The value at the end of two fields, one in the other.
    pub fn get2<'a>(&'a self, a: &str, b: &str) -> (r: Option<&'a Json>)
        ensures
            opt_json(r) == member2(self@, a@, b@),
    {
        match self.get(a) {
            Some(j) => j.get(b),
            None => None,
        }
    }

    /// A copy of the text of a field that is a string.
    pub fn get_str(&self, key: &str) -> (r: Option<String>)
        ensures
            opt_text(r) == str_at(self@, key@),
    {
        as_str(self.get(key))
    }

    /// A copy of the value.
    pub fn copy(&self) -> (r: Json)
        ensures
            r@ == self@,
        decreases self,
    {
        match self {
            Json::Null => Json::Null,
            Json::Bool(b) => Json::Bool(*b),
            Json::Number { whole, text } => Json::Number {
                whole: *whole,
                text: owned(text.as_str()),
            },
            Json::Str(s) => Json::Str(owned(s.as_str())),
            Json::Array(a) => {
                let mut out: Vec<Json> = Vec::new();
                for i in 0..a.len()
                    invariant
                        self == Json::Array(*a),
                        items(out@) == items(a@).take(i as int),
                {
                    let ghost so_far = items(out@);
                    assert(decreases_to!(*self => self->Array_0));
                    assert(decreases_to!(self->Array_0 => self->Array_0@));
                    assert(decreases_to!(self->Array_0@ => self->Array_0@[i as int]));
                    assert(decreases_to!(*self => a@[i as int]));
                    let k = a[i].copy();
                    out.push(k);
                    assert(items(out@) =~= so_far.push(k@));
                    assert(items(a@).take(i as int + 1) =~= items(a@).take(i as int).push(
                        a@[i as int]@,
                    ));
                }
                assert(items(a@).take(a@.len() as int) =~= items(a@));
                proof {
                    lemma_array(*a);
                    lemma_array(out);
                }
                Json::Array(out)
            },
            Json::Object(o) => {
                let mut out: Vec<(String, Json)> = Vec::new();
                for i in 0..o.len()
                    invariant
                        self == Json::Object(*o),
                        fields(out@) == fields(o@).take(i as int),
                {
                    let ghost so_far = fields(out@);
                    let name = owned(o[i].0.as_str());
                    assert(decreases_to!(*self => self->Object_0));
                    assert(decreases_to!(self->Object_0 => self->Object_0@));
                    assert(decreases_to!(self->Object_0@ => self->Object_0@[i as int]));
                    assert(decreases_to!(self->Object_0@[i as int] => self->Object_0@[i as int].1));
                    assert(decreases_to!(*self => o@[i as int].1));
                    let k = o[i].1.copy();
                    out.push((name, k));
                    assert(fields(out@) =~= so_far.push((name@, k@)));
                    assert(fields(o@).take(i as int + 1) =~= fields(o@).take(i as int).push(
                        (o@[i as int].0@, o@[i as int].1@),
                    ));
                }
                assert(fields(o@).take(o@.len() as int) =~= fields(o@));
                proof {
                    lemma_object(*o);
                    lemma_object(out);
                }
                Json::Object(out)
            },
        }
    }
}

/// A copy of the text of a string value.
pub fn as_str(j: Option<&Json>) -> (r: Option<String>)
    ensures
        opt_text(r) == str_of(opt_json(j)),
{
    match j {
        Some(Json::Str(s)) => Some(owned(s.as_str())),
        _ => None,
    }
}

/// The items of an array value.
pub fn as_items<'a>(j: Option<&'a Json>) -> (r: Option<&'a Vec<Json>>)
    ensures
        match r {
            Some(v) => items_of(opt_json(j)) == Some(items(v@)),
            None => items_of(opt_json(j)) is None,
        },
{
    match j {
        Some(Json::Array(a)) => {
            proof {
                lemma_array(*a);
            }
            Some(a)
        },
        _ => None,
    }
}

/// The fields of an object value.
pub fn as_fields<'a>(j: Option<&'a Json>) -> (r: Option<&'a Vec<(String, Json)>>)
    ensures
        match r {
            Some(v) => fields_of(opt_json(j)) == Some(fields(v@)),
            None => fields_of(opt_json(j)) is None,
        },
{
    match j {
        Some(Json::Object(o)) => {
            proof {
                lemma_object(*o);
            }
            Some(o)
        },
        _ => None,
    }
}

/// The value of an integer.
pub fn as_whole(j: Option<&Json>) -> (r: Option<i64>)
    ensures
        r == whole_of(opt_json(j)),
{
    match j {
        Some(Json::Number { whole, .. }) => *whole,
        _ => None,
    }
}

/// The value of a Boolean.
pub fn as_bool(j: Option<&Json>) -> (r: Option<bool>)
    ensures
        r == bool_of(opt_json(j)),
{
    match j {
        Some(Json::Bool(b)) => Some(*b),
        _ => None,
    }
}

/// A whole number as a JSON value.
pub open spec fn json_int(n: int) -> JsonView {
    JsonView::Number {
        whole: if -0x8000_0000_0000_0000 <= n <= 0x7fff_ffff_ffff_ffff {
            Some(n as i64)
        } else {
            None
        },
        text: int_text(n),
    }
}

/// Makes a number of a size.
pub fn size_value(n: usize) -> (r: Json)
    ensures
        r@ == json_int(n as int),
{
    let whole: Option<i64> = if n as u64 <= 0x7fff_ffff_ffff_ffff {
        Some(n as i64)
    } else {
        None
    };
    Json::Number { whole, text: size_to_text(n) }
}

/// Makes a number of an integer.
pub fn int_value(n: i64) -> (r: Json)
    ensures
        r@ == json_int(n as int),
{
    Json::Number { whole: Some(n), text: int_to_text(n) }
}

/// Makes a string value.
pub fn str_value(s: &str) -> (r: Json)
    ensures
        r@ == JsonView::Str(s@),
{
    Json::Str(owned(s))
}

/// Makes an array of strings.
pub fn str_items(v: &Vec<String>) -> (r: Json)
    ensures
        r@ == json_strings(texts(v@)),
{
    let mut out: Vec<Json> = Vec::new();
    let ghost all = texts(v@);
    for i in 0..v.len()
        invariant
            all == texts(v@),
            items(out@) == all.take(i as int).map_values(|s: Seq<char>| JsonView::Str(s)),
    {
        let ghost so_far = items(out@);
        let k = str_value(v[i].as_str());
        out.push(k);
        assert(items(out@) =~= so_far.push(k@));
        assert(all.take(i as int + 1) =~= all.take(i as int).push(v@[i as int]@));
        assert(all.take(i as int + 1).map_values(|s: Seq<char>| JsonView::Str(s)) =~= so_far.push(
            k@,
        ));
    }
    assert(all.take(v@.len() as int) =~= all);
    proof {
        lemma_array(out);
    }
    Json::Array(out)
}

/// An array of strings.
pub open spec fn json_strings(v: Seq<Seq<char>>) -> JsonView {
    JsonView::Array(v.map_values(|s: Seq<char>| JsonView::Str(s)))
}

/// Makes an object of fields.
pub fn object(o: Vec<(String, Json)>) -> (r: Json)
    ensures
        r@ == JsonView::Object(fields(o@)),
{
    proof {
        lemma_object(o);
    }
    Json::Object(o)
}

/// Makes an array of items.
pub fn array(v: Vec<Json>) -> (r: Json)
    ensures
        r@ == JsonView::Array(items(v@)),
{
    proof {
        lemma_array(v);
    }
    Json::Array(v)
}

/// Adds a field.
pub fn push_field(o: &mut Vec<(String, Json)>, key: &str, value: Json)
    ensures
        fields(final(o)@) == fields(old(o)@).push((key@, value@)),
{
    o.push((owned(key), value));
    assert(fields(o@) =~= fields(old(o)@).push((key@, value@)));
}

/// Adds an item.
pub fn push_item(v: &mut Vec<Json>, value: Json)
    ensures
        items(final(v)@) == items(old(v)@).push(value@),
{
    v.push(value);
    assert(items(v@) =~= items(old(v)@).push(value@));
}

/// The strings among the items of an array value, in their order.
pub open spec fn strings_in(a: Seq<JsonView>) -> Seq<Seq<char>>
    decreases a.len(),
{
    if a.len() == 0 {
        Seq::<Seq<char>>::empty()
    } else {
        match a.last() {
            JsonView::Str(s) => strings_in(a.drop_last()).push(s),
            _ => strings_in(a.drop_last()),
        }
    }
}

/// Takes the strings among the items.
pub fn strings_of(v: &Vec<Json>) -> (r: Vec<String>)
    ensures
        texts(r@) == strings_in(items(v@)),
{
    let mut out: Vec<String> = Vec::new();
    let ghost all = items(v@);
    assert(texts(out@) =~= strings_in(all.take(0)));
    for i in 0..v.len()
        invariant
            all == items(v@),
            texts(out@) == strings_in(all.take(i as int)),
    {
        assert(all.take(i as int + 1).drop_last() =~= all.take(i as int));
        assert(all[i as int] == v@[i as int]@);
        match &v[i] {
            Json::Str(s) => {
                push_text(&mut out, owned(s.as_str()));
            },
            _ => {},
        }
    }
    assert(all.take(v@.len() as int) =~= all);
    out
}

/// Turns a value of the library into a `serde_json::Value`, variant by variant. A number is read
/// back from its text, which the crate's `float_roundtrip` feature makes exact. Nothing is
/// promised of the result here.
#[verifier::external_body]
fn to_value(j: &Json) -> (r: serde_json::Value) {
    match j {
        Json::Null => serde_json::Value::Null,
        Json::Bool(b) => serde_json::Value::Bool(*b),
        Json::Number { text, .. } => serde_json::from_str(text).unwrap_or_default(),
        Json::Str(s) => serde_json::Value::String(s.clone()),
        Json::Array(a) => serde_json::Value::Array(a.iter().map(to_value).collect()),
        Json::Object(o) => serde_json::Value::Object(
            o.iter().map(|(k, v)| (k.clone(), to_value(v))).collect(),
        ),
    }
}

/// The text over several lines that serde_json writes a value as.
pub uninterp spec fn json_pretty(j: JsonView) -> Option<Seq<char>>;

/// Calls `serde_json::to_string_pretty`, whose result depends on the value alone.
#[verifier::external_body]
pub(crate) fn write_pretty(j: &Json) -> (r: Option<String>)
    ensures
        opt_text(r) == json_pretty(j@),
{
    serde_json::to_string_pretty(&to_value(j)).ok()
}

/// A value as it is printed.
pub open spec fn json_printed(j: JsonView) -> Seq<char> {
    match json_pretty(j) {
        Some(s) => s,
        None => "null"@,
    }
}

/// Writes a value as it is printed.
pub fn print_json(j: &Json) -> (r: String)
    ensures
        r@ == json_printed(j@),
{
    match write_pretty(j) {
        Some(s) => s,
        None => owned("null"),
    }
}

/// Whether a value is no array and no object, and no number but a 64-bit integer.
pub open spec fn is_simple(j: JsonView) -> bool {
    match j {
        JsonView::Number { whole, text } => match whole {
            Some(n) => text == int_text(n as int),
            None => false,
        },
        JsonView::Array(_) => false,
        JsonView::Object(_) => false,
        _ => true,
    }
}

/// Whether a value is an object of simple values whose names stand in order, each one once.
pub open spec fn is_flat(j: JsonView) -> bool {
    match j {
        JsonView::Object(o) => {
            &&& forall|i: int| 0 <= i < o.len() ==> is_simple(#[trigger] o[i].1)
            &&& forall|i: int, k: int|
                0 <= i < k < o.len() ==> text_before(#[trigger] o[i].0, #[trigger] o[k].0)
        },
        _ => false,
    }
}

/// The text on one line that serde_json writes a value as.
pub uninterp spec fn json_compact(j: JsonView) -> Seq<char>;

/// Writes a `serde_json::Value` with its `Display`: compact JSON, which depends on the value
/// alone, and from which `serde_json::from_str` reads a flat object back as it was.
#[verifier::external_body]
pub(crate) fn write_compact(j: &Json) -> (r: String)
    ensures
        r@ == json_compact(j@),
        is_flat(j@) ==> json_read(r@) is Ok && json_read(r@)->Ok_0 == j@,
{
    to_value(j).to_string()
}

/// What a text reads as, or null where it is no JSON.
pub open spec fn json_or_null(text: Seq<char>) -> JsonView {
    match json_read(text) {
        Ok(j) => j,
        Err(_) => JsonView::Null,
    }
}

/// Reads a text as JSON, or as null.
pub fn read_json(text: &str) -> (r: Json)
    ensures
        r@ == json_or_null(text@),
{
    match parse_json(text) {
        Ok(j) => j,
        Err(_) => Json::Null,
    }
}

/// Copies a list of values.
pub fn copy_items(v: &Vec<Json>) -> (r: Vec<Json>)
    ensures
        items(r@) == items(v@),
{
    let ghost all = items(v@);
    let mut out: Vec<Json> = Vec::new();
    for i in 0..v.len()
        invariant
            all == items(v@),
            items(out@) == all.take(i as int),
    {
        let ghost so_far = items(out@);
        push_item(&mut out, v[i].copy());
        assert(all.take(i as int + 1) =~= so_far.push(all[i as int]));
    }
    assert(all.take(v@.len() as int) =~= all);
    out
}

} // verus!
