//! Records in JSON documents: objects whose fields have names, or arrays whose
//! fields have places.

use crate::json;
use crate::json::{Json, JsonView};
use vstd::prelude::*;

verus! {

/// A field of a record: by its name in an object, by its place in an array.
pub open spec fn slot(v: JsonView, key: Seq<char>, place: nat) -> Option<JsonView> {
    match v {
        JsonView::Array(items) => if place < items.len() {
            Some(items[place as int])
        } else {
            None
        },
        _ => v.get(key),
    }
}

/// Whether a document can be a record of so many fields.
pub open spec fn record(v: JsonView, fields: nat) -> bool {
    match v {
        JsonView::Object(_) => true,
        JsonView::Array(items) => items.len() <= fields,
        _ => false,
    }
}

/// A text field: empty where it is missing, refused where it is no text.
pub open spec fn text_slot(v: JsonView, key: Seq<char>, place: nat) -> Option<Seq<char>> {
    match slot(v, key, place) {
        None => Some(Seq::empty()),
        Some(JsonView::Text(s)) => Some(s),
        Some(_) => None,
    }
}

/// A field that is true or false: false where it is missing.
pub open spec fn bool_slot(v: JsonView, key: Seq<char>, place: nat) -> Option<bool> {
    match slot(v, key, place) {
        None => Some(false),
        Some(JsonView::Bool(b)) => Some(b),
        Some(_) => None,
    }
}

/// An integer field: zero where it is missing.
pub open spec fn integer_slot(v: JsonView, key: Seq<char>, place: nat) -> Option<i64> {
    match slot(v, key, place) {
        None => Some(0),
        Some(JsonView::Integer(n)) => Some(n),
        Some(_) => None,
    }
}

/// Finds a field of a record.
pub fn slot_of<'a>(v: &'a Json, key: &str, place: usize) -> (r: Option<&'a Json>)
    ensures
        match r {
            Some(x) => slot(v@, key@, place as nat) == Some(x@),
            None => slot(v@, key@, place as nat) is None,
        },
{
    match v {
        Json::Array(items) => {
            proof {
                json::array_view(*items);
            }
            if place < items.len() {
                Some(&items[place])
            } else {
                None
            }
        },
        _ => v.get(key),
    }
}

/// Whether a document can be a record of so many fields.
pub fn is_record(v: &Json, fields: usize) -> (r: bool)
    ensures
        r == record(v@, fields as nat),
{
    match v {
        Json::Object(_) => true,
        Json::Array(items) => {
            proof {
                json::array_view(*items);
            }
            items.len() <= fields
        },
        _ => false,
    }
}

/// Reads a text field.
pub fn read_text(v: &Json, key: &str, place: usize) -> (r: Option<String>)
    ensures
        match r {
            Some(s) => text_slot(v@, key@, place as nat) == Some(s@),
            None => text_slot(v@, key@, place as nat) is None,
        },
{
    match slot_of(v, key, place) {
        None => Some(String::new()),
        Some(Json::Text(s)) => Some(s.clone()),
        Some(_) => None,
    }
}

/// Reads a field that is true or false.
pub fn read_bool(v: &Json, key: &str, place: usize) -> (r: Option<bool>)
    ensures
        r == bool_slot(v@, key@, place as nat),
{
    match slot_of(v, key, place) {
        None => Some(false),
        Some(Json::Bool(b)) => Some(*b),
        Some(_) => None,
    }
}

/// Reads an integer field.
pub fn read_integer(v: &Json, key: &str, place: usize) -> (r: Option<i64>)
    ensures
        r == integer_slot(v@, key@, place as nat),
{
    match slot_of(v, key, place) {
        None => Some(0),
        Some(Json::Integer(n)) => Some(*n),
        Some(_) => None,
    }
}

/// An integer field that may not be missing.
pub open spec fn required_integer(v: JsonView, key: Seq<char>, place: nat) -> Option<i64> {
    match slot(v, key, place) {
        Some(JsonView::Integer(n)) => Some(n),
        _ => None,
    }
}

/// A text field that may be null and, in an object, missing: empty then.
pub open spec fn nullable_text(v: JsonView, key: Seq<char>, place: nat) -> Option<Seq<char>> {
    match slot(v, key, place) {
        None => if v is Array {
            None
        } else {
            Some(Seq::empty())
        },
        Some(JsonView::Null) => Some(Seq::empty()),
        Some(JsonView::Text(s)) => Some(s),
        Some(_) => None,
    }
}

/// Reads an integer field that may not be missing.
pub fn read_required_integer(v: &Json, key: &str, place: usize) -> (r: Option<i64>)
    ensures
        r == required_integer(v@, key@, place as nat),
{
    match slot_of(v, key, place) {
        Some(Json::Integer(n)) => Some(*n),
        _ => None,
    }
}

/// Reads a text field that may be null and, in an object, missing.
pub fn read_nullable_text(v: &Json, key: &str, place: usize) -> (r: Option<String>)
    ensures
        match r {
            Some(s) => nullable_text(v@, key@, place as nat) == Some(s@),
            None => nullable_text(v@, key@, place as nat) is None,
        },
{
    match slot_of(v, key, place) {
        None => match v {
            Json::Array(_) => None,
            _ => Some(String::new()),
        },
        Some(Json::Null) => Some(String::new()),
        Some(Json::Text(s)) => Some(s.clone()),
        Some(_) => None,
    }
}

/// A field is found by its name in an object and by its place in an array; a field
/// that is missing has the empty value, and one of another type is refused.
pub proof fn fields_are_found_by_name_or_place(
    v: JsonView,
    items: Seq<JsonView>,
    key: Seq<char>,
    place: nat,
    s: Seq<char>,
    b: bool,
    n: i64,
)
    requires
        v is Object,
        place < items.len(),
    ensures
        v.get(key) == Some(JsonView::Text(s)) ==> text_slot(v, key, place) == Some(s),
        v.get(key) == Some(JsonView::Bool(b)) ==> bool_slot(v, key, place) == Some(b) && text_slot(
            v,
            key,
            place,
        ) is None && integer_slot(v, key, place) is None,
        v.get(key) == Some(JsonView::Integer(n)) ==> integer_slot(v, key, place) == Some(n)
            && text_slot(v, key, place) is None && bool_slot(v, key, place) is None,
        v.get(key) is None ==> text_slot(v, key, place) == Some(Seq::<char>::empty()) && bool_slot(
            v,
            key,
            place,
        ) == Some(false) && integer_slot(v, key, place) == Some(0i64),
        items[place as int] == JsonView::Text(s) ==> text_slot(
            JsonView::Array(items),
            key,
            place,
        ) == Some(s),
        items[place as int] == JsonView::Bool(b) ==> bool_slot(
            JsonView::Array(items),
            key,
            place,
        ) == Some(b),
        items[place as int] == JsonView::Integer(n) ==> integer_slot(
            JsonView::Array(items),
            key,
            place,
        ) == Some(n),
        text_slot(JsonView::Array(items), key, items.len()) == Some(Seq::<char>::empty()),
        record(v, 0),
        record(JsonView::Array(items), place) <==> items.len() <= place,
        !record(JsonView::Text(s), place),
        !record(JsonView::Bool(b), place),
        !record(JsonView::Null, place),
{
}

/// A number that must be there is refused where it is missing; a text that may be
/// null is empty then, and empty where an object does not have it.
pub proof fn some_fields_must_be_there(
    v: JsonView,
    items: Seq<JsonView>,
    key: Seq<char>,
    place: nat,
    n: i64,
    s: Seq<char>,
)
    requires
        v is Object,
    ensures
        v.get(key) is None ==> required_integer(v, key, place) is None && nullable_text(
            v,
            key,
            place,
        ) == Some(Seq::<char>::empty()),
        v.get(key) == Some(JsonView::Integer(n)) ==> required_integer(v, key, place) == Some(n)
            && nullable_text(v, key, place) is None,
        v.get(key) == Some(JsonView::Null) ==> nullable_text(v, key, place) == Some(
            Seq::<char>::empty(),
        ) && required_integer(v, key, place) is None,
        v.get(key) == Some(JsonView::Text(s)) ==> nullable_text(v, key, place) == Some(s)
            && required_integer(v, key, place) is None,
        place >= items.len() ==> nullable_text(JsonView::Array(items), key, place) is None
            && required_integer(JsonView::Array(items), key, place) is None,
{
}

} // verus!
