//! JSON values as the library reads and writes them.
use serde_json::Value;
use vstd::prelude::*;
use vstd::string::*;

use crate::text::same_text;

verus! {

/// A JSON value. Of numbers only the unsigned integers of 64 bits are told apart. The members of
/// an object have different names.
#[derive(Debug)]
pub enum Json {
    Null,
    Bool(bool),
    Number(Option<u64>),
    Text(String),
    List(Vec<Json>),
    Object(Vec<(String, Json)>),
}

/// What a JSON value is.
pub enum JsonView {
    Null,
    Bool(bool),
    Number(Option<u64>),
    Text(Seq<char>),
    List(Seq<JsonView>),
    Object(Seq<(Seq<char>, JsonView)>),
}

impl View for Json {
    type V = JsonView;

    open spec fn view(&self) -> JsonView
        decreases self,
    {
        match self {
            Json::Null => JsonView::Null,
            Json::Bool(b) => JsonView::Bool(*b),
            Json::Number(n) => JsonView::Number(*n),
            Json::Text(s) => JsonView::Text(s@),
            Json::List(items) => JsonView::List(
                Seq::new(
                    items@.len(),
                    |i: int|
                        if 0 <= i < items@.len() {
                            items@[i].view()
                        } else {
                            JsonView::Null
                        },
                ),
            ),
            Json::Object(members) => JsonView::Object(
                Seq::new(
                    members@.len(),
                    |i: int|
                        if 0 <= i < members@.len() {
                            (members@[i].0@, members@[i].1.view())
                        } else {
                            (Seq::empty(), JsonView::Null)
                        },
                ),
            ),
        }
    }
}

proof fn lemma_list_view(items: Vec<Json>)
    ensures
        Json::List(items)@ matches JsonView::List(views) && views.len() == items@.len() && (
        forall|i: int| 0 <= i < items@.len() ==> #[trigger] views[i] == items@[i]@),
{
    reveal_with_fuel(<Json as View>::view, 2);
}

proof fn lemma_object_view(members: Vec<(String, Json)>)
    ensures
        Json::Object(members)@ matches JsonView::Object(views) && views.len() == members@.len() && (
        forall|i: int|
            0 <= i < members@.len() ==> #[trigger] views[i] == (members@[i].0@, members@[i].1@)),
{
    reveal_with_fuel(<Json as View>::view, 2);
}

// ── Values of serde_json ──────────────────────────────────────────────────────

/// `serde_json::Value`, opaque.
#[verifier::external_type_specification]
#[verifier::external_body]
pub struct ExValue(Value);

/// The tree that a `serde_json::Value` holds, the members of its objects in the order of their
/// names.
pub uninterp spec fn json_tree(value: Value) -> JsonView;

/// The outermost layer of a value.
pub enum Layer {
    Null,
    Bool(bool),
    Number(Option<u64>),
    Text(String),
    List(Vec<Value>),
    Object(Vec<(String, Value)>),
}

/// The tree whose outermost layer is `layer`.
pub open spec fn layer_tree(layer: Layer) -> JsonView {
    match layer {
        Layer::Null => JsonView::Null,
        Layer::Bool(b) => JsonView::Bool(b),
        Layer::Number(n) => JsonView::Number(n),
        Layer::Text(s) => JsonView::Text(s@),
        Layer::List(items) => JsonView::List(items@.map_values(|v: Value| json_tree(v))),
        Layer::Object(members) => JsonView::Object(
            members@.map_values(|m: (String, Value)| (m.0@, json_tree(m.1))),
        ),
    }
}

/// Tells the variants of `serde_json::Value` apart. A number gives what
/// `serde_json::Number::as_u64` gives of it.
#[verifier::external_body]
fn outer_layer(value: Value) -> (r: Layer)
    ensures
        layer_tree(r) == json_tree(value),
{
    match value {
        Value::Null => Layer::Null,
        Value::Bool(b) => Layer::Bool(b),
        Value::Number(n) => Layer::Number(n.as_u64()),
        Value::String(s) => Layer::Text(s),
        Value::Array(items) => Layer::List(items),
        Value::Object(members) => Layer::Object(members.into_iter().collect()),
    }
}

/// Take a value of `serde_json` apart.
pub fn from_value(value: Value) -> (r: Json)
    ensures
        r@ == json_tree(value),
    decreases json_tree(value),
{
    let ghost tree = json_tree(value);
    match outer_layer(value) {
        Layer::Null => Json::Null,
        Layer::Bool(b) => Json::Bool(b),
        Layer::Number(n) => Json::Number(n),
        Layer::Text(s) => Json::Text(s),
        Layer::List(values) => {
            let mut values = values;
            let mut items: Vec<Json> = Vec::new();
            let ghost all = values@;
            while values.len() > 0
                invariant
                    tree == JsonView::List(all.map_values(|v: Value| json_tree(v))),
                    tree == json_tree(value),
                    items@.len() + values@.len() == all.len(),
                    values@ == all.skip(items@.len() as int),
                    forall|i: int|
                        0 <= i < items@.len() ==> (#[trigger] items@[i])@ == json_tree(all[i]),
                decreases values@.len(),
            {
                let ghost k = items@.len() as int;
                assert(values@[0] == all[k]);
                let v = values.remove(0);
                assert(tree->List_0[k] == json_tree(v));
                items.push(from_value(v));
                assert(values@ =~= all.skip(k + 1));
            }
            let r = Json::List(items);
            assert(r@->List_0 =~= tree->List_0);
            r
        },
        Layer::Object(fields) => {
            let mut fields = fields;
            let mut members: Vec<(String, Json)> = Vec::new();
            let ghost all = fields@;
            while fields.len() > 0
                invariant
                    tree == JsonView::Object(
                        all.map_values(|m: (String, Value)| (m.0@, json_tree(m.1))),
                    ),
                    tree == json_tree(value),
                    members@.len() + fields@.len() == all.len(),
                    fields@ == all.skip(members@.len() as int),
                    forall|i: int|
                        0 <= i < members@.len() ==> (#[trigger] members@[i]).0@ == all[i].0@
                            && members@[i].1@ == json_tree(all[i].1),
                decreases fields@.len(),
            {
                let ghost k = members@.len() as int;
                assert(fields@[0] == all[k]);
                let (name, v) = fields.remove(0);
                assert(tree->Object_0[k] == (name@, json_tree(v)));
                assert(decreases_to!(tree => tree->Object_0));
                assert(decreases_to!(tree->Object_0 => tree->Object_0[k]));
                assert(decreases_to!(tree->Object_0[k] => tree->Object_0[k].1));
                members.push((name, from_value(v)));
                assert(fields@ =~= all.skip(k + 1));
            }
            let r = Json::Object(members);
            assert(r@->Object_0 =~= tree->Object_0);
            r
        },
    }
}

/// The tree that `serde_json` parses bytes to, or the message of its error.
pub uninterp spec fn json_parse(bytes: Seq<u8>) -> Result<JsonView, Seq<char>>;

/// `serde_json::from_slice` parses bytes to a value, and says why it cannot where it cannot. What
/// it gives is determined by the bytes.
#[verifier::external_body]
fn parse_value(bytes: &[u8]) -> (r: Result<Value, String>)
    ensures
        match r {
            Ok(value) => json_parse(bytes@) == Ok::<JsonView, Seq<char>>(json_tree(value)),
            Err(message) => json_parse(bytes@) == Err::<JsonView, Seq<char>>(message@),
        },
{
    serde_json::from_slice(bytes).map_err(|e| e.to_string())
}

/// Parse bytes as JSON.
pub fn parse(bytes: &[u8]) -> (r: Result<Json, String>)
    ensures
        match r {
            Ok(json) => json_parse(bytes@) == Ok::<JsonView, Seq<char>>(json@),
            Err(message) => json_parse(bytes@) == Err::<JsonView, Seq<char>>(message@),
        },
{
    match parse_value(bytes) {
        Ok(value) => Ok(from_value(value)),
        Err(message) => Err(message),
    }
}

// ── Building ──────────────────────────────────────────────────────────────────

/// The views of members.
pub open spec fn members_view(members: Seq<(String, Json)>) -> Seq<(Seq<char>, JsonView)> {
    members.map_values(|m: (String, Json)| (m.0@, m.1@))
}

/// The views of items.
pub open spec fn items_view(items: Seq<Json>) -> Seq<JsonView> {
    items.map_values(|v: Json| v@)
}

/// Make an object.
pub fn object(members: Vec<(String, Json)>) -> (r: Json)
    ensures
        r@ == JsonView::Object(members_view(members@)),
{
    proof {
        lemma_object_view(members);
        assert(Json::Object(members)@->Object_0 =~= members_view(members@));
    }
    Json::Object(members)
}

/// Make a list.
pub fn list(items: Vec<Json>) -> (r: Json)
    ensures
        r@ == JsonView::List(items_view(items@)),
{
    proof {
        lemma_list_view(items);
        assert(Json::List(items)@->List_0 =~= items_view(items@));
    }
    Json::List(items)
}

/// Make a text.
pub fn text(s: &str) -> (r: Json)
    ensures
        r@ == JsonView::Text(s@),
{
    Json::Text(s.to_string())
}

/// Make a number.
pub fn number(n: u64) -> (r: Json)
    ensures
        r@ == JsonView::Number(Some(n)),
{
    Json::Number(Some(n))
}

// ── Members ───────────────────────────────────────────────────────────────────

/// Member `i` is the one that a name finds: the first of that name.
pub open spec fn member_at(members: Seq<(Seq<char>, JsonView)>, name: Seq<char>, i: int) -> bool {
    &&& 0 <= i < members.len()
    &&& members[i].0 == name
    &&& forall|j: int| 0 <= j < i ==> (#[trigger] members[j]).0 != name
}

impl JsonView {
    /// The member of an object under a name.
    pub open spec fn member(self, name: Seq<char>) -> Option<JsonView> {
        match self {
            JsonView::Object(members) => if exists|i: int| member_at(members, name, i) {
                Some(members[choose|i: int| member_at(members, name, i)].1)
            } else {
                None
            },
            _ => None,
        }
    }

    /// The text of a text.
    pub open spec fn text(self) -> Option<Seq<char>> {
        match self {
            JsonView::Text(s) => Some(s),
            _ => None,
        }
    }

    /// The items of a list.
    pub open spec fn list(self) -> Option<Seq<JsonView>> {
        match self {
            JsonView::List(items) => Some(items),
            _ => None,
        }
    }
}

/// The text of the member of an object under a name, if that is a text.
pub open spec fn text_member(json: JsonView, name: Seq<char>) -> Option<Seq<char>> {
    match json.member(name) {
        Some(v) => v.text(),
        None => None,
    }
}

/// The member of a member.
pub open spec fn deep_member(json: JsonView, outer: Seq<char>, inner: Seq<char>) -> Option<
    JsonView,
> {
    match json.member(outer) {
        Some(v) => v.member(inner),
        None => None,
    }
}

proof fn lemma_member_at(members: Seq<(Seq<char>, JsonView)>, name: Seq<char>, i: int)
    requires
        member_at(members, name, i),
    ensures
        JsonView::Object(members).member(name) == Some(members[i].1),
{
    let j = choose|j: int| member_at(members, name, j);
    assert(member_at(members, name, j));
    if i < j {
        assert(members[i].0 != name);
    } else if j < i {
        assert(members[j].0 != name);
    }
}

impl Json {
    /// The member of an object under a name.
    pub fn get(&self, name: &str) -> (r: Option<&Json>)
        ensures
            match r {
                Some(v) => self@.member(name@) == Some(v@),
                None => self@.member(name@) is None,
            },
    {
        match self {
            Json::Object(members) => {
                let ghost all = self@->Object_0;
                proof {
                    lemma_object_view(*members);
                }
                let mut i: usize = 0;
                while i < members.len()
                    invariant
                        i <= members@.len(),
                        *self == Json::Object(*members),
                        all == self@->Object_0,
                        self@ is Object,
                        all.len() == members@.len(),
                        forall|j: int|
                            0 <= j < members@.len() ==> #[trigger] all[j] == (
                                members@[j].0@,
                                members@[j].1@,
                            ),
                        forall|j: int| 0 <= j < i ==> (#[trigger] all[j]).0 != name@,
                    decreases members@.len() - i,
                {
                    assert(all[i as int].0 == members@[i as int].0@);
                    if same_text(members[i].0.as_str(), name) {
                        proof {
                            lemma_member_at(all, name@, i as int);
                        }
                        return Some(&members[i].1);
                    }
                    i = i + 1;
                }
                None
            },
            _ => None,
        }
    }

    /// The text of a text.
    pub fn as_str(&self) -> (r: Option<&str>)
        ensures
            match r {
                Some(s) => self@.text() == Some(s@),
                None => self@.text() is None,
            },
    {
        match self {
            Json::Text(s) => Some(s.as_str()),
            _ => None,
        }
    }

    /// The items of a list.
    pub fn as_array(&self) -> (r: Option<&Vec<Json>>)
        ensures
            match r {
                Some(items) => self@.list() matches Some(views) && views.len() == items@.len() && (
                forall|i: int| 0 <= i < items@.len() ==> (#[trigger] items@[i])@ == views[i]),
                None => self@.list() is None,
            },
    {
        match self {
            Json::List(items) => {
                proof {
                    lemma_list_view(*items);
                }
                Some(items)
            },
            _ => None,
        }
    }

    /// The text of the member of an object under a name, if that is a text.
    pub fn get_str(&self, name: &str) -> (r: Option<&str>)
        ensures
            match r {
                Some(s) => text_member(self@, name@) == Some(s@),
                None => text_member(self@, name@) is None,
            },
    {
        match self.get(name) {
            Some(v) => v.as_str(),
            None => None,
        }
    }

    /// The member of a member.
    pub fn get_deep(&self, outer: &str, inner: &str) -> (r: Option<&Json>)
        ensures
            match r {
                Some(v) => deep_member(self@, outer@, inner@) == Some(v@),
                None => deep_member(self@, outer@, inner@) is None,
            },
    {
        match self.get(outer) {
            Some(v) => v.get(inner),
            None => None,
        }
    }
}

// ── Laws ──────────────────────────────────────────────────────────────────────

/// A name finds the first member that has it, wherever in the object that stands; only objects have
/// members.
pub proof fn members_are_found_by_name(
    before: Seq<(Seq<char>, JsonView)>,
    name: Seq<char>,
    value: JsonView,
    behind: Seq<(Seq<char>, JsonView)>,
)
    requires
        forall|i: int| 0 <= i < before.len() ==> (#[trigger] before[i]).0 != name,
    ensures
        JsonView::Object(before + seq![(name, value)] + behind).member(name) == Some(value),
        JsonView::Object(before).member(name) is None,
        !(value is Object) ==> value.member(name) is None,
{
    let members = before + seq![(name, value)] + behind;
    let n = before.len() as int;
    assert forall|j: int| 0 <= j < n implies (#[trigger] members[j]).0 != name by {
        assert(members[j] == before[j]);
    }
    assert(member_at(members, name, n));
    lemma_member_at(members, name, n);
    if exists|i: int| member_at(before, name, i) {
        let i = choose|i: int| member_at(before, name, i);
        assert(before[i].0 == name);
    }
}

/// The text of a member is there only if the member is a text.
pub proof fn only_texts_have_text(json: JsonView, name: Seq<char>, inner: Seq<char>)
    ensures
        text_member(json, name) is Some <==> (json.member(name) matches Some(JsonView::Text(_))),
        forall|s: Seq<char>| #[trigger]
            json.member(name) == Some(JsonView::Text(s)) ==> text_member(json, name) == Some(s),
        json.member(name) is None ==> deep_member(json, name, inner) is None,
        forall|v: JsonView| #[trigger]
            json.member(name) == Some(v) ==> deep_member(json, name, inner) == v.member(inner),
{
}

} // verus!
