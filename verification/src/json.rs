//! JSON documents: the tree that a project file parses to, and the lookups
//! that the loader makes in it.

use vstd::prelude::*;

verus! {

/// A JSON value. A number is held as its decimal text. An object holds the
/// keys of its members and, in the same order, their values; a key without
/// a value, or a value without a key, is no member.
#[derive(Debug, PartialEq, Eq)]
pub enum Json {
    Null,
    Bool(bool),
    Number(String),
    String(String),
    Array(Vec<Json>),
    Object(Vec<String>, Vec<Json>),
}

/// The mathematical content of a [`Json`].
pub enum JsonView {
    Null,
    Bool(bool),
    Number(Seq<char>),
    String(Seq<char>),
    Array(Seq<JsonView>),
    Object(Seq<(Seq<char>, JsonView)>),
}

impl View for Json {
    type V = JsonView;

    open spec fn view(&self) -> JsonView
        decreases self,
    {
        match self {
            Json::Null => JsonView::Null,
            Json::Bool(b) => JsonView::Bool(*b),
            Json::Number(text) => JsonView::Number(text@),
            Json::String(text) => JsonView::String(text@),
            Json::Array(items) => JsonView::Array(
                Seq::new(
                    items@.len(),
                    |i: int|
                        if 0 <= i < items@.len() {
                            items@[i].view()
                        } else {
                            JsonView::Null
                        },
                ),
            ),
            Json::Object(keys, values) => JsonView::Object(
                Seq::new(
                    if keys@.len() <= values@.len() {
                        keys@.len()
                    } else {
                        values@.len()
                    },
                    |i: int|
                        (
                            keys@[i]@,
                            if 0 <= i < values@.len() {
                                values@[i].view()
                            } else {
                                JsonView::Null
                            },
                        ),
                ),
            ),
        }
    }
}

fn copy_all(items: &Vec<Json>) -> (r: Vec<Json>)
    ensures
        r@.len() == items@.len(),
        forall|j: int| 0 <= j < r@.len() ==> (#[trigger] r@[j])@ == items@[j]@,
    decreases items,
{
    let mut out: Vec<Json> = Vec::new();
    let mut i: usize = 0;
    while i < items.len()
        invariant
            i <= items.len(),
            out@.len() == i,
            forall|j: int| 0 <= j < i ==> (#[trigger] out@[j])@ == items@[j]@,
        decreases items.len() - i,
    {
        out.push(items[i].copy());
        i += 1;
    }
    out
}

impl Json {
    /// A copy of the value with the same content.
    pub fn copy(&self) -> (r: Json)
        ensures
            r@ == self@,
        decreases self,
    {
        match self {
            Json::Null => Json::Null,
            Json::Bool(b) => Json::Bool(*b),
            Json::Number(text) => Json::Number(text.clone()),
            Json::String(text) => Json::String(text.clone()),
            Json::Array(items) => {
                let r = Json::Array(copy_all(items));
                assert(r@->Array_0 =~= self@->Array_0);
                r
            },
            Json::Object(keys, values) => {
                let mut names: Vec<String> = Vec::new();
                let mut i: usize = 0;
                while i < keys.len()
                    invariant
                        i <= keys.len(),
                        names@.len() == i,
                        forall|j: int| 0 <= j < i ==> (#[trigger] names@[j])@ == keys@[j]@,
                    decreases keys.len() - i,
                {
                    names.push(keys[i].clone());
                    i += 1;
                }
                let r = Json::Object(names, copy_all(values));
                assert(r@->Object_0 =~= self@->Object_0);
                r
            },
        }
    }
}

/// The value of the first member of an object whose key is `key`, from the
/// member at `from` on.
pub open spec fn member_from(members: Seq<(Seq<char>, JsonView)>, key: Seq<char>, from: int) -> Option<
    JsonView,
>
    decreases members.len() - from,
{
    if from < 0 || from >= members.len() {
        None
    } else if members[from].0 == key {
        Some(members[from].1)
    } else {
        member_from(members, key, from + 1)
    }
}

/// The value of the member `key` of an object; nothing else has members.
pub open spec fn member(j: JsonView, key: Seq<char>) -> Option<JsonView> {
    match j {
        JsonView::Object(members) => member_from(members, key, 0),
        _ => None,
    }
}

/// The member `key` as a text: the text of a string, the empty text where
/// there is no such member. `None` where the member is no string.
pub open spec fn text_member(j: JsonView, key: Seq<char>) -> Option<Seq<char>> {
    match member(j, key) {
        None => Some(Seq::empty()),
        Some(JsonView::String(text)) => Some(text),
        Some(_) => None,
    }
}

/// The member `key` as a text that has to be there: `None` where there is
/// no such member or it is no string.
pub open spec fn required_text(j: JsonView, key: Seq<char>) -> Option<Seq<char>> {
    match member(j, key) {
        Some(JsonView::String(text)) => Some(text),
        _ => None,
    }
}

/// The member `key` as a list: the items of an array, no items where there
/// is no such member. `None` where the member is no array.
pub open spec fn list_member(j: JsonView, key: Seq<char>) -> Option<Seq<JsonView>> {
    match member(j, key) {
        None => Some(Seq::empty()),
        Some(JsonView::Array(items)) => Some(items),
        Some(_) => None,
    }
}

/// The member `key` as a list that has to be there: `None` where there is
/// no such member or it is no array.
pub open spec fn required_list(j: JsonView, key: Seq<char>) -> Option<Seq<JsonView>> {
    match member(j, key) {
        Some(JsonView::Array(items)) => Some(items),
        _ => None,
    }
}

/// The member `key` of an object.
pub fn get_member<'a>(j: &'a Json, key: &str) -> (r: Option<&'a Json>)
    ensures
        match r {
            Some(v) => member(j@, key@) == Some(v@),
            None => member(j@, key@) is None,
        },
{
    match j {
        Json::Object(keys, values) => {
            let wanted = key.to_owned();
            let ghost views = j@->Object_0;
            let n = if keys.len() <= values.len() {
                keys.len()
            } else {
                values.len()
            };
            let mut i: usize = 0;
            while i < n
                invariant
                    i <= n,
                    n <= keys@.len(),
                    n <= values@.len(),
                    wanted@ == key@,
                    j@ == JsonView::Object(views),
                    views.len() == n,
                    forall|k: int|
                        0 <= k < n ==> (#[trigger] views[k]) == (keys@[k]@, values@[k]@),
                    member_from(views, key@, 0) == member_from(views, key@, i as int),
                decreases n - i,
            {
                if keys[i] == wanted {
                    return Some(&values[i]);
                }
                i += 1;
            }
            None
        },
        _ => None,
    }
}

/// The views of a list of values, in order.
pub open spec fn json_views(items: Seq<Json>) -> Seq<JsonView> {
    Seq::new(items.len(), |i: int| items[i]@)
}

/// The member `key` as a list. See [`list_member`]: the outer `None` is for
/// a member that is no array, the inner `None` for no member.
pub fn get_list<'a>(j: &'a Json, key: &str) -> (r: Option<Option<&'a Vec<Json>>>)
    ensures
        match r {
            Some(Some(items)) => list_member(j@, key@) == Some(json_views(items@)),
            Some(None) => list_member(j@, key@) == Some(Seq::<JsonView>::empty()),
            None => list_member(j@, key@) is None,
        },
{
    match get_member(j, key) {
        None => Some(None),
        Some(Json::Array(items)) => {
            assert(json_views(items@) =~= Json::Array(*items)@->Array_0);
            Some(Some(items))
        },
        Some(_) => None,
    }
}

/// The member `key` as a list that has to be there. See [`required_list`].
pub fn get_required_list<'a>(j: &'a Json, key: &str) -> (r: Option<&'a Vec<Json>>)
    ensures
        match r {
            Some(items) => required_list(j@, key@) == Some(json_views(items@)),
            None => required_list(j@, key@) is None,
        },
{
    match get_member(j, key) {
        Some(Json::Array(items)) => {
            assert(json_views(items@) =~= Json::Array(*items)@->Array_0);
            Some(items)
        },
        _ => None,
    }
}

/// The member `key` as a text. See [`text_member`].
pub fn get_text(j: &Json, key: &str) -> (r: Option<String>)
    ensures
        match r {
            Some(s) => text_member(j@, key@) == Some(s@),
            None => text_member(j@, key@) is None,
        },
{
    match get_member(j, key) {
        None => Some(String::new()),
        Some(Json::String(text)) => Some(text.clone()),
        Some(_) => None,
    }
}

/// The member `key` as a text that has to be there. See [`required_text`].
pub fn get_required_text(j: &Json, key: &str) -> (r: Option<String>)
    ensures
        match r {
            Some(s) => required_text(j@, key@) == Some(s@),
            None => required_text(j@, key@) is None,
        },
{
    match get_member(j, key) {
        Some(Json::String(text)) => Some(text.clone()),
        _ => None,
    }
}

/// A JSON value of `serde_json`; nothing is known of what is inside.
#[verifier::external_type_specification]
#[verifier::external_body]
pub struct ExValue(serde_json::Value);

/// What a JSON value of `serde_json` holds.
pub uninterp spec fn content(v: serde_json::Value) -> JsonView;

/// What a byte sequence parses to as a JSON document, if it is one.
pub uninterp spec fn parsed(bytes: Seq<u8>) -> Option<JsonView>;

/// Parses a JSON document with `serde_json::from_slice`. The result is a
/// function of the bytes alone, which [`parsed`] names; bytes that are no
/// JSON document give `None`.
#[verifier::external_body]
fn parse_value(bytes: &[u8]) -> (r: Option<serde_json::Value>)
    ensures
        match r {
            Some(v) => parsed(bytes@) == Some(content(v)),
            None => parsed(bytes@) is None,
        },
{
    serde_json::from_slice::<serde_json::Value>(bytes).ok()
}

/// Copies a `serde_json::Value` into a [`Json`], variant by variant: a
/// number as the text that it displays as, the keys and the values of an
/// object in the order in which the map hands them out. The copy holds what
/// the value holds, which [`content`] names.
#[verifier::external_body]
fn from_value(v: &serde_json::Value) -> (r: Json)
    ensures
        r@ == content(*v),
{
    match v {
        serde_json::Value::Null => Json::Null,
        serde_json::Value::Bool(b) => Json::Bool(*b),
        serde_json::Value::Number(n) => Json::Number(n.to_string()),
        serde_json::Value::String(s) => Json::String(s.clone()),
        serde_json::Value::Array(a) => Json::Array(a.iter().map(from_value).collect()),
        serde_json::Value::Object(o) => {
            Json::Object(o.keys().cloned().collect(), o.values().map(from_value).collect())
        },
    }
}

/// Parses the bytes of a JSON document into a [`Json`].
pub fn parse(bytes: &[u8]) -> (r: Option<Json>)
    ensures
        match r {
            Some(j) => parsed(bytes@) == Some(j@),
            None => parsed(bytes@) is None,
        },
{
    match parse_value(bytes) {
        Some(v) => Some(from_value(&v)),
        None => None,
    }
}

} // verus!
