//! JSON values as the library holds them.
//!
//! Tool arguments and tool parameter schemas are JSON. The library keeps them
//! as plain data ([`JsonValue`]) whose mathematical model is [`Json`]; JSON text is
//! produced and read by `serde_json`.

use vstd::prelude::*;

verus! {

/// A JSON document. Numbers are kept as their JSON text (as `serde_json` prints
/// them); object entries are kept in the order they were given.
#[derive(Debug)]
pub enum JsonValue {
    Null,
    Bool(bool),
    Number(String),
    String(String),
    Array(Vec<JsonValue>),
    Object(Vec<(String, JsonValue)>),
}

#[verifier::ext_equal]
pub enum Json {
    Null,
    Bool(bool),
    Number(Seq<char>),
    Str(Seq<char>),
    Array(Seq<Json>),
    Object(Seq<(Seq<char>, Json)>),
}

pub open spec fn json_view(v: JsonValue) -> Json
    decreases v,
{
    match v {
        JsonValue::Null => Json::Null,
        JsonValue::Bool(b) => Json::Bool(b),
        JsonValue::Number(n) => Json::Number(n@),
        JsonValue::String(s) => Json::Str(s@),
        JsonValue::Array(items) => Json::Array(
            Seq::new(
                items@.len(),
                |i: int|
                    if 0 <= i < items@.len() {
                        json_view(items@[i])
                    } else {
                        Json::Null
                    },
            ),
        ),
        JsonValue::Object(entries) => Json::Object(
            Seq::new(
                entries@.len(),
                |i: int|
                    if 0 <= i < entries@.len() {
                        (entries@[i].0@, json_view(entries@[i].1))
                    } else {
                        (Seq::empty(), Json::Null)
                    },
            ),
        ),
    }
}

impl View for JsonValue {
    type V = Json;

    open spec fn view(&self) -> Json {
        json_view(*self)
    }
}

impl JsonValue {
    pub fn duplicate(&self) -> (r: JsonValue)
        ensures
            r@ == self@,
        decreases self,
    {
        match self {
            JsonValue::Null => JsonValue::Null,
            JsonValue::Bool(b) => JsonValue::Bool(*b),
            JsonValue::Number(n) => JsonValue::Number(n.clone()),
            JsonValue::String(s) => JsonValue::String(s.clone()),
            JsonValue::Array(items) => {
                let mut out: Vec<JsonValue> = Vec::new();
                let mut i: usize = 0;
                while i < items.len()
                    invariant
                        i <= items@.len(),
                        *self == JsonValue::Array(*items),
                        out@.len() == i,
                        forall|j: int| 0 <= j < i ==> #[trigger] out@[j]@ == items@[j]@,
                    decreases items@.len() - i,
                {
                    proof {
                        broadcast use vstd::std_specs::vec::axiom_vec_decreases_to_view;
                        assert(*self == JsonValue::Array(*items));
                        assert(decreases_to!(*self => self->Array_0));
                        assert(decreases_to!(*items => items@));
                        assert(decreases_to!(items@ => items@[i as int]));
                        assert(decreases_to!(*self => items@[i as int]));
                    }
                    out.push(items[i].duplicate());
                    i = i + 1;
                }
                let r = JsonValue::Array(out);
                assert forall|k: int| 0 <= k < out@.len() implies json_view(out@[k]) == json_view(items@[k]) by {
                    assert(out@[k]@ == items@[k]@);
                }
                proof {
                    let ra = match json_view(r) { Json::Array(x) => x, _ => Seq::empty() };
                    let sa = match json_view(*self) { Json::Array(x) => x, _ => Seq::empty() };
                    assert(json_view(r) is Array);
                    assert(ra.len() == out@.len());
                    assert(sa.len() == items@.len());
                    assert(ra =~= sa);
                }
                r
            },
            JsonValue::Object(entries) => {
                let mut out: Vec<(String, JsonValue)> = Vec::new();
                let mut i: usize = 0;
                while i < entries.len()
                    invariant
                        i <= entries@.len(),
                        *self == JsonValue::Object(*entries),
                        out@.len() == i,
                        forall|j: int| 0 <= j < i ==> #[trigger] out@[j].0@ == entries@[j].0@ && out@[j].1@ == entries@[j].1@,
                    decreases entries@.len() - i,
                {
                    proof {
                        broadcast use vstd::std_specs::vec::axiom_vec_decreases_to_view;
                        assert(*self == JsonValue::Object(*entries));
                        assert(decreases_to!(*self => self->Object_0));
                        assert(decreases_to!(*entries => entries@));
                        assert(decreases_to!(entries@ => entries@[i as int]));
                        assert(decreases_to!(entries@[i as int] => entries@[i as int].1));
                        assert(decreases_to!(*self => entries@[i as int].1));
                    }
                    let k = entries[i].0.clone();
                    let v = entries[i].1.duplicate();
                    out.push((k, v));
                    i = i + 1;
                }
                let r = JsonValue::Object(out);
                assert forall|k: int| 0 <= k < out@.len() implies out@[k].0@ == entries@[k].0@ && json_view(out@[k].1) == json_view(entries@[k].1) by {
                    assert(out@[k].0@ == entries@[k].0@ && out@[k].1@ == entries@[k].1@);
                }
                proof {
                    let ra = match json_view(r) { Json::Object(x) => x, _ => Seq::empty() };
                    let sa = match json_view(*self) { Json::Object(x) => x, _ => Seq::empty() };
                    assert(json_view(r) is Object);
                    assert(ra.len() == out@.len());
                    assert(sa.len() == entries@.len());
                    assert(ra =~= sa);
                }
                r
            },
        }
    }
}

} // verus!

verus! {

/// The models of object entries.
pub open spec fn entries_model(entries: Seq<(String, JsonValue)>) -> Seq<(Seq<char>, Json)> {
    entries.map_values(|e: (String, JsonValue)| (e.0@, e.1@))
}

/// The models of array items.
pub open spec fn items_model(items: Seq<JsonValue>) -> Seq<Json> {
    items.map_values(|v: JsonValue| v@)
}

/// Looks up `key` among object entries; the last entry with that key wins, as in
/// the map that `serde_json` builds from the entries.
pub open spec fn entries_lookup(entries: Seq<(Seq<char>, Json)>, key: Seq<char>) -> Option<Json>
    decreases entries.len(),
{
    if entries.len() == 0 {
        None
    } else if entries.last().0 == key {
        Some(entries.last().1)
    } else {
        entries_lookup(entries.drop_last(), key)
    }
}

impl Json {
    /// The value of field `key` of an object; `None` for a missing field or a non-object.
    pub open spec fn field(self, key: Seq<char>) -> Option<Json> {
        match self {
            Json::Object(entries) => entries_lookup(entries, key),
            _ => None,
        }
    }

    pub open spec fn str_value(self) -> Option<Seq<char>> {
        match self {
            Json::Str(s) => Some(s),
            _ => None,
        }
    }

    pub open spec fn bool_value(self) -> Option<bool> {
        match self {
            Json::Bool(b) => Some(b),
            _ => None,
        }
    }

    /// `Some(s)` when field `key` is a JSON string `s`.
    pub open spec fn str_field(self, key: Seq<char>) -> Option<Seq<char>> {
        match self.field(key) {
            Some(v) => v.str_value(),
            None => None,
        }
    }

    /// `Some(b)` when field `key` is a JSON boolean `b`.
    pub open spec fn bool_field(self, key: Seq<char>) -> Option<bool> {
        match self.field(key) {
            Some(v) => v.bool_value(),
            None => None,
        }
    }
}

proof fn lemma_lookup_take(entries: Seq<(Seq<char>, Json)>, key: Seq<char>, i: int)
    requires
        0 <= i < entries.len(),
    ensures
        entries_lookup(entries.take(i + 1), key) == (if entries[i].0 == key {
            Some(entries[i].1)
        } else {
            entries_lookup(entries.take(i), key)
        }),
{
    assert(entries.take(i + 1).last() == entries[i]);
    assert(entries.take(i + 1).drop_last() =~= entries.take(i));
}

impl JsonValue {
    /// The value of field `key` when `self` is an object holding it.
    pub fn get(&self, key: &str) -> (r: Option<&JsonValue>)
        ensures
            match r {
                Some(v) => self@.field(key@) == Some(v@),
                None => self@.field(key@) is None,
            },
    {
        match self {
            JsonValue::Object(entries) => {
                let key_owned = String::from_str(key);
                let ghost ev = match self@ {
                    Json::Object(x) => x,
                    _ => Seq::empty(),
                };
                assert(ev.len() == entries@.len());
                assert(ev.take(ev.len() as int) =~= ev);
                assert(self@.field(key@) == entries_lookup(ev, key@));
                let mut i: usize = entries.len();
                while i > 0
                    invariant
                        i <= entries@.len(),
                        ev.len() == entries@.len(),
                        key_owned@ == key@,
                        forall|j: int| 0 <= j < ev.len() ==> #[trigger] ev[j] == (entries@[j].0@, json_view(entries@[j].1)),
                        entries_lookup(ev, key@) == entries_lookup(ev.take(i as int), key@),
                        self@.field(key@) == entries_lookup(ev, key@),
                    decreases i,
                {
                    i = i - 1;
                    proof {
                        lemma_lookup_take(ev, key@, i as int);
                        assert(ev[i as int] == (entries@[i as int].0@, json_view(entries@[i as int].1)));
                    }
                    if entries[i].0 == key_owned {
                        return Some(&entries[i].1);
                    }
                }
                assert(ev.take(0).len() == 0);
                None
            },
            _ => None,
        }
    }

    /// The text of a JSON string.
    pub fn as_str(&self) -> (r: Option<&str>)
        ensures
            match r {
                Some(s) => self@.str_value() == Some(s@),
                None => self@.str_value() is None,
            },
    {
        match self {
            JsonValue::String(s) => Some(s.as_str()),
            _ => None,
        }
    }

    /// The value of a JSON boolean.
    pub fn as_bool(&self) -> (r: Option<bool>)
        ensures
            r == self@.bool_value(),
    {
        match self {
            JsonValue::Bool(b) => Some(*b),
            _ => None,
        }
    }

    /// Field `key` when it holds a JSON string.
    pub fn get_str(&self, key: &str) -> (r: Option<&str>)
        ensures
            match r {
                Some(s) => self@.str_field(key@) == Some(s@),
                None => self@.str_field(key@) is None,
            },
    {
        match self.get(key) {
            Some(v) => v.as_str(),
            None => None,
        }
    }

    /// Field `key` when it holds a JSON boolean.
    pub fn get_bool(&self, key: &str) -> (r: Option<bool>)
        ensures
            r == self@.bool_field(key@),
    {
        match self.get(key) {
            Some(v) => v.as_bool(),
            None => None,
        }
    }

    /// A JSON string.
    pub fn string(s: &str) -> (r: JsonValue)
        ensures
            r@ == Json::Str(s@),
    {
        JsonValue::String(String::from_str(s))
    }

    /// An object entry: a key and a value.
    pub fn entry(key: &str, value: JsonValue) -> (r: (String, JsonValue))
        ensures
            r.0@ == key@,
            r.1@ == value@,
    {
        (String::from_str(key), value)
    }

    /// A JSON object with the given entries, in order.
    pub fn object(entries: Vec<(String, JsonValue)>) -> (r: JsonValue)
        ensures
            r@ == Json::Object(entries_model(entries@)),
    {
        let r = JsonValue::Object(entries);
        assert(r@ == Json::Object(entries_model(entries@))) by {
            assert(match r@ {
                Json::Object(x) => x =~= entries_model(entries@),
                _ => false,
            });
        }
        r
    }

    /// A JSON array with the given items, in order.
    pub fn array(items: Vec<JsonValue>) -> (r: JsonValue)
        ensures
            r@ == Json::Array(items_model(items@)),
    {
        let r = JsonValue::Array(items);
        assert(r@ == Json::Array(items_model(items@))) by {
            assert(match r@ {
                Json::Array(x) => x =~= items_model(items@),
                _ => false,
            });
        }
        r
    }

    /// Whether the value is an object or `null`.
    pub fn is_object_or_null(&self) -> (r: bool)
        ensures
            r == (self@ is Object || self@ is Null),
    {
        match self {
            JsonValue::Object(_) => true,
            JsonValue::Null => true,
            _ => false,
        }
    }
}

impl Clone for JsonValue {
    fn clone(&self) -> (r: Self)
        ensures
            r@ == self@,
    {
        self.duplicate()
    }
}

/// Whether entry `i` is the last one with its key; as in the map that
/// `serde_json` builds from the entries, a later entry replaces an earlier one.
pub open spec fn last_of_key(entries: Seq<(Seq<char>, Json)>, i: int) -> bool {
    forall|j: int| i < j < entries.len() ==> entries[j].0 != entries[i].0
}

/// A JSON value as `serde_json` compares it: an object is a map from its keys to
/// their values, where the last entry of a key counts and the order of entries
/// does not.
pub enum JsonShape {
    Null,
    Bool(bool),
    Number(Seq<char>),
    Str(Seq<char>),
    Array(Seq<JsonShape>),
    Object(Map<Seq<char>, JsonShape>),
}

/// The index of the last entry with key `k`.
pub open spec fn last_index(entries: Seq<(Seq<char>, Json)>, k: Seq<char>) -> int {
    choose|i: int| 0 <= i < entries.len() && entries[i].0 == k && last_of_key(entries, i)
}

/// The shape of a JSON value.
pub open spec fn shape(a: Json) -> JsonShape
    decreases a,
{
    match a {
        Json::Null => JsonShape::Null,
        Json::Bool(b) => JsonShape::Bool(b),
        Json::Number(n) => JsonShape::Number(n),
        Json::Str(t) => JsonShape::Str(t),
        Json::Array(x) => JsonShape::Array(
            Seq::new(
                x.len(),
                |i: int|
                    if 0 <= i < x.len() {
                        shape(x[i])
                    } else {
                        JsonShape::Null
                    },
            ),
        ),
        Json::Object(x) => JsonShape::Object(
            Map::new(
                |k: Seq<char>| exists|i: int| 0 <= i < x.len() && x[i].0 == k,
                |k: Seq<char>|
                    {
                        let i = last_index(x, k);
                        if 0 <= i < x.len() {
                            shape(x[i].1)
                        } else {
                            JsonShape::Null
                        }
                    },
            ),
        ),
    }
}

/// Whether two JSON values are equal as `serde_json` compares them: objects as
/// maps from keys to values, arrays item by item, anything else as it is.
pub open spec fn json_equiv(a: Json, b: Json) -> bool {
    shape(a) == shape(b)
}

/// A key that occurs among the entries has a last entry.
proof fn lemma_last_exists(x: Seq<(Seq<char>, Json)>, i: int)
    requires
        0 <= i < x.len(),
    ensures
        exists|l: int| 0 <= l < x.len() && x[l].0 == x[i].0 && last_of_key(x, l),
    decreases x.len() - i,
{
    if !last_of_key(x, i) {
        let j = choose|j: int| i < j < x.len() && x[j].0 == x[i].0;
        lemma_last_exists(x, j);
    } else {
        assert(0 <= i < x.len() && x[i].0 == x[i].0 && last_of_key(x, i));
    }
}

/// What the shape of an object holds: its keys, and for the last entry of each
/// key, the shape of that entry's value.
proof fn lemma_object_shape(x: Seq<(Seq<char>, Json)>)
    ensures
        shape(Json::Object(x)) is Object,
        forall|k: Seq<char>|
            shape(Json::Object(x))->Object_0.dom().contains(k) <==> exists|i: int|
                0 <= i < x.len() && #[trigger] x[i].0 == k,
        forall|i: int|
            0 <= i < x.len() && #[trigger] last_of_key(x, i) ==> shape(Json::Object(x))->Object_0[x[i].0]
                == shape(x[i].1),
{
    let m = shape(Json::Object(x))->Object_0;
    assert forall|i: int| 0 <= i < x.len() && #[trigger] last_of_key(x, i) implies m[x[i].0] == shape(
        x[i].1,
    ) by {
        let l = last_index(x, x[i].0);
        assert(0 <= i < x.len() && x[i].0 == x[i].0 && last_of_key(x, i));
        if l < i {
            assert(x[i].0 != x[l].0);
        } else if l > i {
            assert(x[l].0 != x[i].0);
        }
    }
}

proof fn lemma_array_model(a: Vec<JsonValue>)
    ensures
        json_view(JsonValue::Array(a)) is Array,
        json_view(JsonValue::Array(a))->Array_0.len() == a@.len(),
        forall|i: int|
            0 <= i < a@.len() ==> json_view(JsonValue::Array(a))->Array_0[i] == json_view(
                #[trigger] a@[i],
            ),
{
}

proof fn lemma_object_model(a: Vec<(String, JsonValue)>)
    ensures
        json_view(JsonValue::Object(a)) is Object,
        json_view(JsonValue::Object(a))->Object_0.len() == a@.len(),
        forall|i: int|
            0 <= i < a@.len() ==> json_view(JsonValue::Object(a))->Object_0[i] == (
                (#[trigger] a@[i]).0@,
                json_view(a@[i].1),
            ),
{
}

/// The index of the last entry with key `k`.
fn find_last(entries: &Vec<(String, JsonValue)>, k: &String) -> (r: Option<usize>)
    ensures
        match r {
            Some(j) => {
                &&& j < entries@.len()
                &&& entries@[j as int].0@ == k@
                &&& forall|m: int| j < m < entries@.len() ==> (#[trigger] entries@[m]).0@ != k@
            },
            None => forall|m: int| 0 <= m < entries@.len() ==> (#[trigger] entries@[m]).0@ != k@,
        },
{
    let mut j: usize = entries.len();
    while j > 0
        invariant
            j <= entries@.len(),
            forall|m: int| j <= m < entries@.len() ==> (#[trigger] entries@[m]).0@ != k@,
        decreases j,
    {
        j = j - 1;
        if entries[j].0 == *k {
            return Some(j);
        }
    }
    None
}

impl PartialEq for JsonValue {
    fn eq(&self, other: &Self) -> (r: bool)
        decreases self,
    {
        match (self, other) {
            (JsonValue::Null, JsonValue::Null) => true,
            (JsonValue::Bool(a), JsonValue::Bool(b)) => *a == *b,
            (JsonValue::Number(a), JsonValue::Number(b)) => *a == *b,
            (JsonValue::String(a), JsonValue::String(b)) => *a == *b,
            (JsonValue::Array(a), JsonValue::Array(b)) => {
                proof {
                    lemma_array_model(*a);
                    lemma_array_model(*b);
                }
                let ghost x = json_view(*self)->Array_0;
                let ghost y = json_view(*other)->Array_0;
                let ghost sx = shape(json_view(*self))->Array_0;
                let ghost sy = shape(json_view(*other))->Array_0;
                assert(json_view(*self) == Json::Array(x));
                assert(json_view(*other) == Json::Array(y));
                if a.len() != b.len() {
                    assert(sx.len() != sy.len());
                    return false;
                }
                let mut i: usize = 0;
                while i < a.len()
                    invariant
                        i <= a@.len(),
                        a@.len() == b@.len(),
                        *self == JsonValue::Array(*a),
                        *other == JsonValue::Array(*b),
                        json_view(*self) == Json::Array(x),
                        json_view(*other) == Json::Array(y),
                        sx == shape(json_view(*self))->Array_0,
                        sy == shape(json_view(*other))->Array_0,
                        x.len() == a@.len(),
                        y.len() == b@.len(),
                        forall|j: int| 0 <= j < a@.len() ==> x[j] == json_view(#[trigger] a@[j]),
                        forall|j: int| 0 <= j < b@.len() ==> y[j] == json_view(#[trigger] b@[j]),
                        forall|j: int| 0 <= j < i ==> #[trigger] sx[j] == sy[j],
                    decreases a@.len() - i,
                {
                    proof {
                        broadcast use vstd::std_specs::vec::axiom_vec_decreases_to_view;
                        assert(decreases_to!(*self => self->Array_0));
                        assert(decreases_to!(*a => a@));
                        assert(decreases_to!(a@ => a@[i as int]));
                    }
                    if !(a[i] == b[i]) {
                        assert(sx[i as int] != sy[i as int]);
                        return false;
                    }
                    assert(sx[i as int] == sy[i as int]);
                    i = i + 1;
                }
                assert(sx =~= sy);
                true
            },
            (JsonValue::Object(a), JsonValue::Object(b)) => {
                proof {
                    lemma_object_model(*a);
                    lemma_object_model(*b);
                }
                let ghost x = json_view(*self)->Object_0;
                let ghost y = json_view(*other)->Object_0;
                proof {
                    lemma_object_shape(x);
                    lemma_object_shape(y);
                }
                let ghost mx = shape(json_view(*self))->Object_0;
                let ghost my = shape(json_view(*other))->Object_0;
                assert(json_view(*self) == Json::Object(x));
                assert(json_view(*other) == Json::Object(y));
                let mut i: usize = 0;
                while i < a.len()
                    invariant
                        i <= a@.len(),
                        *self == JsonValue::Object(*a),
                        *other == JsonValue::Object(*b),
                        json_view(*self) == Json::Object(x),
                        json_view(*other) == Json::Object(y),
                        mx == shape(Json::Object(x))->Object_0,
                        my == shape(Json::Object(y))->Object_0,
                        x.len() == a@.len(),
                        y.len() == b@.len(),
                        forall|j: int|
                            0 <= j < a@.len() ==> x[j] == ((#[trigger] a@[j]).0@, json_view(a@[j].1)),
                        forall|j: int|
                            0 <= j < b@.len() ==> y[j] == ((#[trigger] b@[j]).0@, json_view(b@[j].1)),
                        forall|k: Seq<char>|
                            mx.dom().contains(k) <==> exists|i2: int| 0 <= i2 < x.len() && #[trigger] x[i2].0 == k,
                        forall|k: Seq<char>|
                            my.dom().contains(k) <==> exists|j2: int| 0 <= j2 < y.len() && #[trigger] y[j2].0 == k,
                        forall|i2: int|
                            0 <= i2 < x.len() && #[trigger] last_of_key(x, i2) ==> mx[x[i2].0] == shape(x[i2].1),
                        forall|j2: int|
                            0 <= j2 < y.len() && #[trigger] last_of_key(y, j2) ==> my[y[j2].0] == shape(y[j2].1),
                        forall|i2: int|
                            0 <= i2 < i && #[trigger] last_of_key(x, i2) ==> my.dom().contains(x[i2].0)
                                && my[x[i2].0] == mx[x[i2].0],
                    decreases a@.len() - i,
                {
                    proof {
                        broadcast use vstd::std_specs::vec::axiom_vec_decreases_to_view;
                        assert(decreases_to!(*self => self->Object_0));
                        assert(decreases_to!(*a => a@));
                        assert(decreases_to!(a@ => a@[i as int]));
                        assert(decreases_to!(a@[i as int] => a@[i as int].1));
                    }
                    let ghost key = x[i as int].0;
                    assert(key == a@[i as int].0@);
                    assert(mx.dom().contains(key));
                    let last_here = match find_last(a, &a[i].0) {
                        Some(l) => l == i,
                        None => false,
                    };
                    assert(last_here == last_of_key(x, i as int)) by {
                        if !last_here {
                            if last_of_key(x, i as int) {
                                let l = choose|l: int| i < l < a@.len() && a@[l].0@ == key;
                                assert(x[l].0 != x[i as int].0);
                            }
                        }
                    }
                    if last_here {
                        match find_last(b, &a[i].0) {
                            None => {
                                assert(!my.dom().contains(key)) by {
                                    if my.dom().contains(key) {
                                        let j2 = choose|j2: int| 0 <= j2 < y.len() && #[trigger] y[j2].0 == key;
                                        assert(b@[j2].0@ != key);
                                    }
                                }
                                assert(mx != my);
                                return false;
                            },
                            Some(j) => {
                                assert(y[j as int].0 == key);
                                assert(last_of_key(y, j as int)) by {
                                    assert forall|m: int| j < m < y.len() implies y[m].0 != y[j as int].0 by {
                                        assert(b@[m].0@ != key);
                                    }
                                }
                                assert(my[key] == shape(y[j as int].1));
                                assert(mx[key] == shape(x[i as int].1));
                                if !(a[i].1 == b[j].1) {
                                    assert(mx[key] != my[key]);
                                    assert(mx != my);
                                    return false;
                                }
                                assert(my.dom().contains(key));
                            },
                        }
                    }
                    i = i + 1;
                }
                let mut j: usize = 0;
                while j < b.len()
                    invariant
                        j <= b@.len(),
                        *self == JsonValue::Object(*a),
                        *other == JsonValue::Object(*b),
                        json_view(*self) == Json::Object(x),
                        json_view(*other) == Json::Object(y),
                        mx == shape(Json::Object(x))->Object_0,
                        my == shape(Json::Object(y))->Object_0,
                        x.len() == a@.len(),
                        y.len() == b@.len(),
                        forall|k: int|
                            0 <= k < a@.len() ==> x[k] == ((#[trigger] a@[k]).0@, json_view(a@[k].1)),
                        forall|k: int|
                            0 <= k < b@.len() ==> y[k] == ((#[trigger] b@[k]).0@, json_view(b@[k].1)),
                        forall|k: Seq<char>|
                            mx.dom().contains(k) <==> exists|i2: int| 0 <= i2 < x.len() && #[trigger] x[i2].0 == k,
                        forall|k: Seq<char>|
                            my.dom().contains(k) <==> exists|j2: int| 0 <= j2 < y.len() && #[trigger] y[j2].0 == k,
                        forall|i2: int|
                            0 <= i2 < x.len() && #[trigger] last_of_key(x, i2) ==> my.dom().contains(x[i2].0)
                                && my[x[i2].0] == mx[x[i2].0],
                        forall|j2: int| 0 <= j2 < j ==> mx.dom().contains(#[trigger] y[j2].0),
                    decreases b@.len() - j,
                {
                    let ghost key = y[j as int].0;
                    assert(key == b@[j as int].0@);
                    assert(my.dom().contains(key));
                    match find_last(a, &b[j].0) {
                        None => {
                            assert(!mx.dom().contains(key)) by {
                                if mx.dom().contains(key) {
                                    let i2 = choose|i2: int| 0 <= i2 < x.len() && #[trigger] x[i2].0 == key;
                                    assert(a@[i2].0@ != key);
                                }
                            }
                            assert(mx != my);
                            return false;
                        },
                        Some(k) => {
                            assert(x[k as int].0 == key);
                        },
                    }
                    j = j + 1;
                }
                assert(mx =~= my) by {
                    assert forall|k: Seq<char>| #[trigger] mx.dom().contains(k) implies my.dom().contains(k)
                        && mx[k] == my[k] by {
                        let i2 = choose|i2: int| 0 <= i2 < x.len() && #[trigger] x[i2].0 == k;
                        lemma_last_exists(x, i2);
                        let l = choose|l: int| 0 <= l < x.len() && x[l].0 == x[i2].0 && last_of_key(x, l);
                        assert(last_of_key(x, l));
                    }
                    assert forall|k: Seq<char>| #[trigger] my.dom().contains(k) implies mx.dom().contains(k) by {
                        let j2 = choose|j2: int| 0 <= j2 < y.len() && #[trigger] y[j2].0 == k;
                        assert(mx.dom().contains(y[j2].0));
                    }
                    assert(mx.dom() =~= my.dom());
                }
                true
            },
            _ => false,
        }
    }
}

impl vstd::std_specs::cmp::PartialEqSpecImpl for JsonValue {
    open spec fn obeys_eq_spec() -> bool {
        true
    }

    open spec fn eq_spec(&self, other: &JsonValue) -> bool {
        json_equiv(self@, other@)
    }
}

#[verifier::external_type_specification]
#[verifier::external_body]
pub struct ExSerdeJsonValue(serde_json::Value);

/// The compact JSON text that `serde_json::to_string` gives for a value.
pub uninterp spec fn json_text(v: Json) -> Seq<char>;

/// What `serde_json::from_str` reads from a text: `None` when the text is not JSON.
pub uninterp spec fn json_parse(text: Seq<char>) -> Option<Json>;

/// Rebuilds a value as a `serde_json::Value`, variant for variant (a number whose
/// text `serde_json` does not read as a number becomes a JSON string).
#[verifier::external_body]
fn to_serde(v: &JsonValue) -> serde_json::Value {
    match v {
        JsonValue::Null => serde_json::Value::Null,
        JsonValue::Bool(b) => serde_json::Value::Bool(*b),
        JsonValue::Number(n) => match n.parse::<serde_json::Number>() {
            Ok(x) => serde_json::Value::Number(x),
            Err(_) => serde_json::Value::String(n.clone()),
        },
        JsonValue::String(s) => serde_json::Value::String(s.clone()),
        JsonValue::Array(items) => serde_json::Value::Array(items.iter().map(to_serde).collect()),
        JsonValue::Object(entries) => serde_json::Value::Object(
            entries.iter().map(|(k, x)| (k.clone(), to_serde(x))).collect(),
        ),
    }
}

/// Takes a `serde_json::Value` apart variant for variant; a number keeps the text
/// that `serde_json` prints for it.
#[verifier::external_body]
fn from_serde(v: serde_json::Value) -> JsonValue {
    match v {
        serde_json::Value::Null => JsonValue::Null,
        serde_json::Value::Bool(b) => JsonValue::Bool(b),
        serde_json::Value::Number(n) => JsonValue::Number(n.to_string()),
        serde_json::Value::String(s) => JsonValue::String(s),
        serde_json::Value::Array(items) => JsonValue::Array(items.into_iter().map(from_serde).collect()),
        serde_json::Value::Object(map) => JsonValue::Object(
            map.into_iter().map(|(k, x)| (k, from_serde(x))).collect(),
        ),
    }
}

/// `serde_json::to_string` on the value. The contract claims only that the text is
/// the one named [`json_text`] for the value's model: serialising a JSON value
/// depends on nothing else.
#[verifier::external_body]
pub fn json_to_string(v: &JsonValue) -> (s: String)
    ensures
        s@ == json_text(v@),
{
    serde_json::to_string(&to_serde(v)).unwrap_or_default()
}

/// `serde_json::from_str::<serde_json::Value>` on the text. The contract claims
/// only that the outcome is the one named [`json_parse`] for the text.
#[verifier::external_body]
pub fn parse_json(text: &str) -> (r: Option<JsonValue>)
    ensures
        match r {
            Some(v) => json_parse(text@) == Some(v@),
            None => json_parse(text@) is None,
        },
{
    serde_json::from_str::<serde_json::Value>(text).ok().map(from_serde)
}

} // verus!
