//! JSON documents as plain values.

use crate::text;
use vstd::prelude::*;

verus! {

/// A JSON document.
#[derive(Debug, Default)]
pub enum Json {
    #[default]
    Null,
    Bool(bool),
    /// A number that is a signed 64-bit integer.
    Integer(i64),
    /// Any other number, in the digits that it is written with.
    Number(String),
    Text(String),
    Array(Vec<Json>),
    /// The members in order; of several with one name the last counts.
    Object(Vec<(String, Json)>),
}

/// What a JSON document says.
pub enum JsonView {
    Null,
    Bool(bool),
    Integer(i64),
    Number(Seq<char>),
    Text(Seq<char>),
    Array(Seq<JsonView>),
    Object(Seq<(Seq<char>, JsonView)>),
}

/// What a document says, item by item and member by member.
pub open spec fn said(v: Json) -> JsonView
    decreases v,
{
    match v {
        Json::Null => JsonView::Null,
        Json::Bool(b) => JsonView::Bool(b),
        Json::Integer(n) => JsonView::Integer(n),
        Json::Number(s) => JsonView::Number(s@),
        Json::Text(s) => JsonView::Text(s@),
        Json::Array(items) => JsonView::Array(
            Seq::new(
                items@.len(),
                |i: int|
                    if 0 <= i < items@.len() {
                        said(items@[i])
                    } else {
                        JsonView::Null
                    },
            ),
        ),
        Json::Object(items) => JsonView::Object(
            Seq::new(
                items@.len(),
                |i: int|
                    if 0 <= i < items@.len() {
                        (items@[i].0@, said(items@[i].1))
                    } else {
                        (Seq::empty(), JsonView::Null)
                    },
            ),
        ),
    }
}

impl View for Json {
    type V = JsonView;

    open spec fn view(&self) -> JsonView {
        said(*self)
    }
}

/// The documents of a list.
pub open spec fn views(items: Seq<Json>) -> Seq<JsonView> {
    Seq::new(items.len(), |i: int| items[i]@)
}

/// The members of a list.
pub open spec fn members(items: Seq<(String, Json)>) -> Seq<(Seq<char>, JsonView)> {
    Seq::new(items.len(), |i: int| (items[i].0@, items[i].1@))
}

/// An array says what its items say, in their order.
pub proof fn array_view(items: Vec<Json>)
    ensures
        Json::Array(items)@ == JsonView::Array(views(items@)),
{
    assert(Json::Array(items)@->Array_0 =~= views(items@)) by {
        let v = Json::Array(items)@->Array_0;
        assert forall|i: int| 0 <= i < items@.len() implies v[i] == items@[i]@ by {}
    }
}

/// An object says what its members say, in their order.
pub proof fn object_view(items: Vec<(String, Json)>)
    ensures
        Json::Object(items)@ == JsonView::Object(members(items@)),
{
    assert(Json::Object(items)@->Object_0 =~= members(items@)) by {
        let v = Json::Object(items)@->Object_0;
        assert forall|i: int| 0 <= i < items@.len() implies v[i] == (items@[i].0@, items@[i].1@) by {}
    }
}

impl Clone for Json {
    fn clone(&self) -> (r: Json)
        ensures
            r@ == self@,
        decreases self,
    {
        match self {
            Json::Null => Json::Null,
            Json::Bool(b) => Json::Bool(*b),
            Json::Integer(n) => Json::Integer(*n),
            Json::Number(s) => Json::Number(s.clone()),
            Json::Text(s) => Json::Text(s.clone()),
            Json::Array(items) => {
                let mut out: Vec<Json> = Vec::new();
                let mut i: usize = 0;
                while i < items.len()
                    invariant
                        i <= items@.len(),
                        out@.len() == i,
                        *self == Json::Array(*items),
                        forall|k: int| 0 <= k < i ==> (#[trigger] out@[k])@ == items@[k]@,
                    decreases items@.len() - i,
                {
                    assert(decreases_to!(*self => self->Array_0));
                    assert(decreases_to!(*items => items@));
                    assert(decreases_to!(items@ => items@[i as int]));
                    out.push(items[i].clone());
                    i += 1;
                }
                proof {
                    array_view(*items);
                    array_view(out);
                    assert(views(out@) =~= views(items@));
                }
                Json::Array(out)
            },
            Json::Object(items) => {
                let mut out: Vec<(String, Json)> = Vec::new();
                let mut i: usize = 0;
                while i < items.len()
                    invariant
                        i <= items@.len(),
                        out@.len() == i,
                        *self == Json::Object(*items),
                        forall|k: int|
                            0 <= k < i ==> (#[trigger] out@[k]).0@ == items@[k].0@ && out@[k].1@
                                == items@[k].1@,
                    decreases items@.len() - i,
                {
                    assert(decreases_to!(*self => self->Object_0));
                    assert(decreases_to!(*items => items@));
                    assert(decreases_to!(items@ => items@[i as int]));
                    assert(decreases_to!(items@[i as int] => items@[i as int].1));
                    let key = items[i].0.clone();
                    let value = items[i].1.clone();
                    out.push((key, value));
                    i += 1;
                }
                proof {
                    object_view(*items);
                    object_view(out);
                    assert(members(out@) =~= members(items@));
                }
                Json::Object(out)
            },
        }
    }
}

/// The value of the last member with a name.
pub open spec fn last_member(s: Seq<(Seq<char>, JsonView)>, key: Seq<char>) -> Option<JsonView>
    decreases s.len(),
{
    if s.len() == 0 {
        None
    } else if s.last().0 == key {
        Some(s.last().1)
    } else {
        last_member(s.drop_last(), key)
    }
}

/// The members with another value for the last one with a name.
pub open spec fn replaced(
    s: Seq<(Seq<char>, JsonView)>,
    key: Seq<char>,
    value: JsonView,
) -> Seq<(Seq<char>, JsonView)>
    decreases s.len(),
{
    if s.len() == 0 {
        s
    } else if s.last().0 == key {
        s.drop_last().push((key, value))
    } else {
        replaced(s.drop_last(), key, value).push(s.last())
    }
}

impl JsonView {
    /// The member of an object with a name; nothing else has members.
    pub open spec fn get(self, key: Seq<char>) -> Option<JsonView> {
        match self {
            JsonView::Object(s) => last_member(s, key),
            _ => None,
        }
    }

    /// The text, where the document is one, else the empty text.
    pub open spec fn text(self) -> Seq<char> {
        match self {
            JsonView::Text(s) => s,
            _ => Seq::empty(),
        }
    }

    /// The text of a member, where there is one, else the empty text.
    pub open spec fn text_at(self, key: Seq<char>) -> Seq<char> {
        match self.get(key) {
            Some(v) => v.text(),
            None => Seq::empty(),
        }
    }

    /// The items of an array member, where there is one, else none.
    pub open spec fn items_at(self, key: Seq<char>) -> Seq<JsonView> {
        match self.get(key) {
            Some(JsonView::Array(items)) => items,
            _ => Seq::empty(),
        }
    }

    /// The integer of a member, where there is one, else zero.
    pub open spec fn integer_at(self, key: Seq<char>) -> int {
        match self.get(key) {
            Some(JsonView::Integer(n)) => n as int,
            _ => 0,
        }
    }

    /// An object without members.
    pub open spec fn object() -> JsonView {
        JsonView::Object(Seq::empty())
    }

    /// An object with one more member at its end.
    pub open spec fn with(self, key: Seq<char>, value: JsonView) -> JsonView {
        match self {
            JsonView::Object(s) => JsonView::Object(s.push((key, value))),
            _ => self,
        }
    }

    /// An object with another value for a member that it has.
    pub open spec fn with_other(self, key: Seq<char>, value: JsonView) -> JsonView {
        match self {
            JsonView::Object(s) => JsonView::Object(replaced(s, key, value)),
            _ => self,
        }
    }

    /// An object with one more member that is a text.
    pub open spec fn with_text(self, key: Seq<char>, value: Seq<char>) -> JsonView {
        self.with(key, JsonView::Text(value))
    }
}

/// An added member is what its name finds, and the other names find what they
/// found before.
pub proof fn with_then_get(v: JsonView, key: Seq<char>, value: JsonView, other: Seq<char>)
    requires
        v is Object,
    ensures
        v.with(key, value).get(key) == Some(value),
        other != key ==> v.with(key, value).get(other) == v.get(other),
{
    let s = v->Object_0;
    assert(s.push((key, value)).drop_last() =~= s);
}

/// Another value for a member is what its name finds, and the other names find
/// what they found before.
pub proof fn replaced_then_get(
    s: Seq<(Seq<char>, JsonView)>,
    key: Seq<char>,
    value: JsonView,
    other: Seq<char>,
)
    ensures
        last_member(s, key) is Some ==> last_member(replaced(s, key, value), key) == Some(value),
        other != key ==> last_member(replaced(s, key, value), other) == last_member(s, other),
    decreases s.len(),
{
    if s.len() > 0 {
        if s.last().0 == key {
            assert(s.drop_last().push((key, value)).drop_last() =~= s.drop_last());
        } else {
            replaced_then_get(s.drop_last(), key, value, other);
            let r = replaced(s.drop_last(), key, value);
            assert(r.push(s.last()).drop_last() =~= r);
        }
    }
}

/// The last member with a name is what the name finds.
pub proof fn member_is_found(s: Seq<(Seq<char>, JsonView)>, i: int, key: Seq<char>)
    requires
        0 <= i < s.len(),
        s[i].0 == key,
        forall|k: int| i < k < s.len() ==> (#[trigger] s[k]).0 != key,
    ensures
        JsonView::Object(s).get(key) == Some(s[i].1),
    decreases s.len(),
{
    if i < s.len() - 1 {
        let t = s.drop_last();
        assert(s[s.len() - 1].0 != key);
        assert forall|k: int| i < k < t.len() implies (#[trigger] t[k]).0 != key by {
            assert(s[k].0 != key);
        }
        member_is_found(t, i, key);
    }
}

/// A name that no member has finds nothing.
pub proof fn member_is_missing(s: Seq<(Seq<char>, JsonView)>, key: Seq<char>)
    requires
        forall|k: int| 0 <= k < s.len() ==> (#[trigger] s[k]).0 != key,
    ensures
        JsonView::Object(s).get(key) is None,
    decreases s.len(),
{
    if s.len() > 0 {
        let t = s.drop_last();
        assert(s[s.len() - 1].0 != key);
        assert forall|k: int| 0 <= k < t.len() implies (#[trigger] t[k]).0 != key by {
            assert(s[k].0 != key);
        }
        member_is_missing(t, key);
    }
}

/// The member that is replaced is the last one with the name.
proof fn lemma_replaced(
    s: Seq<(Seq<char>, JsonView)>,
    key: Seq<char>,
    value: JsonView,
    i: int,
)
    requires
        0 <= i < s.len(),
        s[i].0 == key,
        forall|k: int| i < k < s.len() ==> (#[trigger] s[k]).0 != key,
    ensures
        replaced(s, key, value) == s.update(i, (key, value)),
    decreases s.len(),
{
    if i == s.len() - 1 {
        assert(replaced(s, key, value) =~= s.update(i, (key, value)));
    } else {
        let t = s.drop_last();
        assert(s[s.len() - 1].0 != key);
        assert forall|k: int| i < k < t.len() implies (#[trigger] t[k]).0 != key by {
            assert(s[k].0 != key);
        }
        lemma_replaced(t, key, value, i);
        assert(replaced(s, key, value) =~= s.update(i, (key, value)));
    }
}

/// There is nothing to replace of a name that is not there.
proof fn lemma_replaced_absent(s: Seq<(Seq<char>, JsonView)>, key: Seq<char>, value: JsonView)
    requires
        forall|k: int| 0 <= k < s.len() ==> (#[trigger] s[k]).0 != key,
    ensures
        replaced(s, key, value) == s,
    decreases s.len(),
{
    if s.len() > 0 {
        let t = s.drop_last();
        assert(s[s.len() - 1].0 != key);
        assert forall|k: int| 0 <= k < t.len() implies (#[trigger] t[k]).0 != key by {
            assert(s[k].0 != key);
        }
        lemma_replaced_absent(t, key, value);
        assert(replaced(s, key, value) =~= s);
    }
}

impl Json {
    pub fn is_null(&self) -> (r: bool)
        ensures
            r == (self@ is Null),
    {
        matches!(self, Json::Null)
    }

    pub fn is_object(&self) -> (r: bool)
        ensures
            r == (self@ is Object),
    {
        matches!(self, Json::Object(_))
    }

    /// The member with a name.
    pub fn get(&self, key: &str) -> (r: Option<&Json>)
        ensures
            match r {
                Some(v) => self@.get(key@) == Some(v@),
                None => self@.get(key@) is None,
            },
    {
        match self {
            Json::Object(items) => {
                proof {
                    object_view(*items);
                }
                let ghost all = members(items@);
                let mut i: usize = items.len();
                assert(all.take(i as int) =~= all);
                while i > 0
                    invariant
                        i <= items@.len(),
                        all == members(items@),
                        self@ == JsonView::Object(all),
                        last_member(all, key@) == last_member(all.take(i as int), key@),
                    decreases i,
                {
                    i -= 1;
                    assert(all.take(i + 1).drop_last() =~= all.take(i as int));
                    assert(all.take(i + 1).last() == all[i as int]);
                    if text::same(items[i].0.as_str(), key) {
                        return Some(&items[i].1);
                    }
                }
                None
            },
            _ => None,
        }
    }

    /// The text, where the document is one, else the empty text.
    pub fn as_text(&self) -> (r: &str)
        ensures
            r@ == self@.text(),
    {
        match self {
            Json::Text(s) => s.as_str(),
            _ => {
                proof {
                    reveal_strlit("");
                    assert(""@ =~= Seq::<char>::empty());
                }
                ""
            },
        }
    }

    /// The text of a member, where there is one, else the empty text.
    pub fn text_at(&self, key: &str) -> (r: &str)
        ensures
            r@ == self@.text_at(key@),
    {
        match self.get(key) {
            Some(v) => v.as_text(),
            None => {
                proof {
                    reveal_strlit("");
                    assert(""@ =~= Seq::<char>::empty());
                }
                ""
            },
        }
    }

    /// The items of an array member, where there is one.
    pub fn items_at(&self, key: &str) -> (r: Option<&Vec<Json>>)
        ensures
            match r {
                Some(items) => self@.items_at(key@) == views(items@),
                None => self@.items_at(key@) == Seq::<JsonView>::empty(),
            },
    {
        match self.get(key) {
            Some(Json::Array(items)) => {
                proof {
                    array_view(*items);
                }
                Some(items)
            },
            _ => None,
        }
    }

    /// The integer of a member, where there is one, else zero.
    pub fn integer_at(&self, key: &str) -> (r: i64)
        ensures
            r == self@.integer_at(key@),
    {
        match self.get(key) {
            Some(Json::Integer(n)) => *n,
            _ => 0,
        }
    }

    /// A document that is a text.
    pub fn string(s: &str) -> (r: Json)
        ensures
            r@ == JsonView::Text(s@),
    {
        Json::Text(text::owned(s))
    }

    /// A document that is an array.
    pub fn array(items: Vec<Json>) -> (r: Json)
        ensures
            r@ == JsonView::Array(views(items@)),
    {
        proof {
            array_view(items);
        }
        Json::Array(items)
    }

    /// An object without members.
    pub fn object() -> (r: Json)
        ensures
            r@ == JsonView::object(),
    {
        let items: Vec<(String, Json)> = Vec::new();
        proof {
            object_view(items);
            assert(members(items@) =~= Seq::empty());
        }
        Json::Object(items)
    }

    /// An object with one more member at its end.
    pub fn with(self, key: &str, value: Json) -> (r: Json)
        ensures
            r@ == self@.with(key@, value@),
    {
        match self {
            Json::Object(items) => {
                let mut items = items;
                let ghost before = items;
                items.push((text::owned(key), value));
                proof {
                    object_view(before);
                    object_view(items);
                    assert(members(items@) =~= members(before@).push((key@, value@)));
                }
                Json::Object(items)
            },
            other => other,
        }
    }

    /// An object with another value for a member that it has.
    pub fn with_other(self, key: &str, value: Json) -> (r: Json)
        ensures
            r@ == self@.with_other(key@, value@),
    {
        match self {
            Json::Object(items) => {
                let mut items = items;
                let ghost before = items;
                let ghost all = members(before@);
                proof {
                    object_view(before);
                }
                let mut i: usize = items.len();
                while i > 0
                    invariant
                        i <= items@.len(),
                        items == before,
                        all == members(before@),
                        self@ == JsonView::Object(all),
                        forall|k: int| i <= k < all.len() ==> (#[trigger] all[k]).0 != key@,
                    decreases i,
                {
                    i -= 1;
                    if text::same(items[i].0.as_str(), key) {
                        items.set(i, (text::owned(key), value));
                        proof {
                            lemma_replaced(all, key@, value@, i as int);
                            object_view(items);
                            assert(members(items@) =~= all.update(i as int, (key@, value@)));
                        }
                        return Json::Object(items);
                    }
                    assert(all[i as int].0 != key@);
                }
                proof {
                    lemma_replaced_absent(all, key@, value@);
                }
                Json::Object(items)
            },
            other => other,
        }
    }

    /// An object with one more member that is a text.
    pub fn with_text(self, key: &str, value: &str) -> (r: Json)
        ensures
            r@ == self@.with_text(key@, value@),
    {
        self.with(key, Json::string(value))
    }
}

/// The document that `serde_json` reads from bytes, or the words of its error.
pub uninterp spec fn parsed_json(raw: Seq<u8>) -> Result<JsonView, Seq<char>>;

/// The words that `serde_json` writes a document in, without blanks between
/// them.
pub uninterp spec fn json_text(v: JsonView) -> Seq<char>;

/// A result with the views of what it holds.
pub open spec fn outcome(r: Result<Json, String>) -> Result<JsonView, Seq<char>> {
    match r {
        Ok(v) => Ok(v@),
        Err(e) => Err(e@),
    }
}

/// One for one, the document for a `serde_json::Value`. Only the conversion of
/// [`parse`] goes through it, and nothing is claimed of it here.
#[verifier::external_body]
fn from_value(v: serde_json::Value) -> Json {
    match v {
        serde_json::Value::Null => Json::Null,
        serde_json::Value::Bool(b) => Json::Bool(b),
        serde_json::Value::Number(n) => match n.as_i64() {
            Some(i) => Json::Integer(i),
            None => Json::Number(n.to_string()),
        },
        serde_json::Value::String(s) => Json::Text(s),
        serde_json::Value::Array(a) => Json::Array(a.into_iter().map(from_value).collect()),
        serde_json::Value::Object(o) => {
            Json::Object(o.into_iter().map(|(k, x)| (k, from_value(x))).collect())
        },
    }
}

/// One for one, the `serde_json::Value` for a document. Only the conversion of
/// [`to_text`] goes through it, and nothing is claimed of it here.
#[verifier::external_body]
fn to_value(v: &Json) -> serde_json::Value {
    match v {
        Json::Null => serde_json::Value::Null,
        Json::Bool(b) => serde_json::Value::Bool(*b),
        Json::Integer(n) => serde_json::Value::from(*n),
        Json::Number(s) => s.parse().map(serde_json::Value::Number).unwrap_or_default(),
        Json::Text(s) => serde_json::Value::String(s.clone()),
        Json::Array(a) => serde_json::Value::Array(a.iter().map(to_value).collect()),
        Json::Object(o) => {
            serde_json::Value::Object(o.iter().map(|(k, x)| (k.clone(), to_value(x))).collect())
        },
    }
}

/// `serde_json::from_slice` to a `serde_json::Value`. The result is a function
/// of the bytes: the document, or the words of the error. Where an object in
/// the bytes repeats a name, its last value is the one that is kept, and the
/// whole document is read, fields that nobody asks for among them.
#[verifier::external_body]
pub(crate) fn parse(raw: &[u8]) -> (r: Result<Json, String>)
    ensures
        outcome(r) == parsed_json(raw@),
{
    match serde_json::from_slice::<serde_json::Value>(raw) {
        Ok(v) => Ok(from_value(v)),
        Err(e) => Err(e.to_string()),
    }
}

/// A text that JSON writes as it is: no quote, no backslash, no control
/// character.
pub open spec fn plain(s: Seq<char>) -> bool {
    forall|i: int|
        0 <= i < s.len() ==> (#[trigger] s[i]) != '"' && s[i] != '\\' && s[i] as u32 >= 0x20
}

/// `to_string` of a `serde_json::Value`. The result is a function of the
/// document; an integer is written in decimal digits, and a text without a
/// quote, a backslash and a control character stands between two quotes.
#[verifier::external_body]
pub(crate) fn to_text(v: &Json) -> (r: String)
    ensures
        r@ == json_text(v@),
        v@ matches JsonView::Integer(n) ==> r@ == text::signed_decimal(n as int),
        v@ matches JsonView::Text(s) ==> plain(s) ==> r@ == seq!['"'] + s + seq!['"'],
{
    to_value(v).to_string()
}

/// `serde_json::Value`, carried but not looked into.
#[verifier::external_type_specification]
#[verifier::external_body]
pub struct ExValue(serde_json::Value);

} // verus!
