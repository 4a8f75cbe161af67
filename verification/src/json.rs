use vstd::prelude::*;

verus! {

/// A JSON number as serde_json stores it: a non-negative integer, a negative
/// integer, or a float carried by its canonical text rendering.
pub enum JsonNumber {
    PosInt(u64),
    NegInt(i64),
    Float(String),
}

/// A JSON document. Object members keep their order.
pub enum JsonValue {
    Null,
    Bool(bool),
    Number(JsonNumber),
    String(String),
    Array(Vec<JsonValue>),
    Object(Vec<(String, JsonValue)>),
}

/// Mathematical model of a JSON number.
pub ghost enum Num {
    PosInt(u64),
    NegInt(i64),
    Float(Seq<char>),
}

/// Mathematical model of a JSON document.
pub ghost enum Json {
    Null,
    Bool(bool),
    Num(Num),
    Str(Seq<char>),
    Arr(Seq<Json>),
    Obj(Seq<(Seq<char>, Json)>),
}

impl View for JsonNumber {
    type V = Num;

    open spec fn view(&self) -> Num {
        match self {
            JsonNumber::PosInt(u) => Num::PosInt(*u),
            JsonNumber::NegInt(i) => Num::NegInt(*i),
            JsonNumber::Float(t) => Num::Float(t@),
        }
    }
}

impl View for JsonValue {
    type V = Json;

    open spec fn view(&self) -> Json {
        json_of(*self)
    }
}

/// The model of a JSON document.
pub open spec fn json_of(j: JsonValue) -> Json
    decreases j,
    via json_of_decreases
{
    match j {
        JsonValue::Null => Json::Null,
        JsonValue::Bool(b) => Json::Bool(b),
        JsonValue::Number(n) => Json::Num(n@),
        JsonValue::String(s) => Json::Str(s@),
        JsonValue::Array(v) => Json::Arr(
            Seq::new(v@.len(), |i: int| if 0 <= i < v@.len() { json_of(v@[i]) } else { Json::Null }),
        ),
        JsonValue::Object(m) => Json::Obj(
            Seq::new(
                m@.len(),
                |i: int|
                    if 0 <= i < m@.len() {
                        (m@[i].0@, json_of(m@[i].1))
                    } else {
                        (Seq::empty(), Json::Null)
                    },
            ),
        ),
    }
}

#[via_fn]
proof fn json_of_decreases(j: JsonValue) {
    match j {
        JsonValue::Array(v) => {
            assert forall|i: int| 0 <= i < v@.len() implies decreases_to!(j => v@[i]) by {
                assert(decreases_to!(j => v));
                assert(decreases_to!(v => v@));
                assert(decreases_to!(v@ => v@[i]));
            }
        },
        JsonValue::Object(m) => {
            assert forall|i: int| 0 <= i < m@.len() implies decreases_to!(j => m@[i].1) by {
                assert(decreases_to!(j => m));
                assert(decreases_to!(m => m@));
                assert(decreases_to!(m@ => m@[i]));
                assert(decreases_to!(m@[i] => m@[i].1));
            }
        },
        _ => {},
    }
}

/// The member value stored under `key` in an object (the first member with
/// that key); `None` for other values or absent keys.
pub open spec fn members_get(m: Seq<(Seq<char>, Json)>, key: Seq<char>) -> Option<Json>
    decreases m.len(),
{
    if m.len() == 0 {
        None
    } else if m[0].0 == key {
        Some(m[0].1)
    } else {
        members_get(m.drop_first(), key)
    }
}

impl Json {
    pub open spec fn get(self, key: Seq<char>) -> Option<Json> {
        match self {
            Json::Obj(m) => members_get(m, key),
            _ => None,
        }
    }

    /// `get` through an optional value, as `.and_then(|v| v.get(key))` does.
    pub open spec fn opt_get(o: Option<Json>, key: Seq<char>) -> Option<Json> {
        match o {
            Some(j) => j.get(key),
            None => None,
        }
    }

    pub open spec fn as_str(self) -> Option<Seq<char>> {
        match self {
            Json::Str(s) => Some(s),
            _ => None,
        }
    }

    pub open spec fn as_u64(self) -> Option<u64> {
        match self {
            Json::Num(Num::PosInt(u)) => Some(u),
            _ => None,
        }
    }

    pub open spec fn as_i64(self) -> Option<i64> {
        match self {
            Json::Num(Num::PosInt(u)) => if u <= i64::MAX {
                Some(u as i64)
            } else {
                None
            },
            Json::Num(Num::NegInt(i)) => Some(i),
            _ => None,
        }
    }

    pub open spec fn as_array(self) -> Option<Seq<Json>> {
        match self {
            Json::Arr(a) => Some(a),
            _ => None,
        }
    }

    pub open spec fn as_object(self) -> Option<Seq<(Seq<char>, Json)>> {
        match self {
            Json::Obj(m) => Some(m),
            _ => None,
        }
    }
}

/// `Option<&Value>::and_then(as_str)` in the model.
pub open spec fn opt_str(o: Option<Json>) -> Option<Seq<char>> {
    match o {
        Some(j) => j.as_str(),
        None => None,
    }
}

/// `Option<&Value>::and_then(as_u64)` in the model.
pub open spec fn opt_u64(o: Option<Json>) -> Option<u64> {
    match o {
        Some(j) => j.as_u64(),
        None => None,
    }
}

/// `Option<&Value>::and_then(as_array)` in the model.
pub open spec fn opt_array(o: Option<Json>) -> Option<Seq<Json>> {
    match o {
        Some(j) => j.as_array(),
        None => None,
    }
}

/// `Option<&Value>::and_then(as_object)` in the model.
pub open spec fn opt_object(o: Option<Json>) -> Option<Seq<(Seq<char>, Json)>> {
    match o {
        Some(j) => j.as_object(),
        None => None,
    }
}

/// `a.or_else(|| b)` in the model.
pub open spec fn or_else(a: Option<Json>, b: Option<Json>) -> Option<Json> {
    if a is Some {
        a
    } else {
        b
    }
}

/// Whether two strings hold the same characters.
pub fn str_eq(a: &str, b: &str) -> (r: bool)
    ensures
        r == (a@ == b@),
{
    let x = crate::text::chars_of(a);
    let y = crate::text::chars_of(b);
    if x.len() != y.len() {
        return false;
    }
    let mut i: usize = 0;
    while i < x.len()
        invariant
            i <= x@.len(),
            x@.len() == y@.len(),
            x@ == a@,
            y@ == b@,
            forall|k: int| 0 <= k < i ==> x@[k] == y@[k],
        decreases x.len() - i,
    {
        if x[i] != y[i] {
            return false;
        }
        i += 1;
    }
    assert(x@ =~= y@);
    true
}

impl JsonValue {
    /// The view of an element of an array value.
    pub proof fn lemma_array_view(&self, v: &Vec<JsonValue>, i: int)
        requires
            *self == JsonValue::Array(*v),
            0 <= i < v@.len(),
        ensures
            self@ == Json::Arr(self@->Arr_0),
            self@->Arr_0.len() == v@.len(),
            self@->Arr_0[i] == v@[i]@,
    {
        assert(self@ is Arr);
        assert(self@->Arr_0.len() == v@.len());
    }

    /// The member named `key` (`Value::get` with a string index).
    pub fn get(&self, key: &str) -> (r: Option<&JsonValue>)
        ensures
            match r {
                Some(v) => self@.get(key@) == Some(v@),
                None => self@.get(key@) is None,
            },
    {
        match self {
            JsonValue::Object(m) => {
                let mut i: usize = 0;
                assert(self@->Obj_0.skip(0) =~= self@->Obj_0);
                while i < m.len()
                    invariant
                        i <= m@.len(),
                        self@ == Json::Obj(self@->Obj_0),
                        self@->Obj_0.len() == m@.len(),
                        forall|k: int| 0 <= k < m@.len() ==> #[trigger] self@->Obj_0[k] == (m@[k].0@, m@[k].1@),
                        members_get(self@->Obj_0, key@) == members_get(self@->Obj_0.skip(i as int), key@),
                    decreases m.len() - i,
                {
                    let ghost ms = self@->Obj_0;
                    assert(ms.skip(i as int)[0] == ms[i as int]);
                    assert(ms.skip(i as int).drop_first() =~= ms.skip(i + 1));
                    if str_eq(m[i].0.as_str(), key) {
                        return Some(&m[i].1);
                    }
                    i += 1;
                }
                None
            },
            _ => None,
        }
    }

    pub fn as_str(&self) -> (r: Option<&str>)
        ensures
            match r {
                Some(s) => self@.as_str() == Some(s@),
                None => self@.as_str() is None,
            },
    {
        match self {
            JsonValue::String(s) => Some(s.as_str()),
            _ => None,
        }
    }

    pub fn as_u64(&self) -> (r: Option<u64>)
        ensures
            r == self@.as_u64(),
    {
        match self {
            JsonValue::Number(JsonNumber::PosInt(u)) => Some(*u),
            _ => None,
        }
    }

    pub fn as_i64(&self) -> (r: Option<i64>)
        ensures
            r == self@.as_i64(),
    {
        match self {
            JsonValue::Number(JsonNumber::PosInt(u)) => if *u <= 0x7fff_ffff_ffff_ffffu64 {
                Some(*u as i64)
            } else {
                None
            },
            JsonValue::Number(JsonNumber::NegInt(i)) => Some(*i),
            _ => None,
        }
    }

    pub fn as_array(&self) -> (r: Option<&Vec<JsonValue>>)
        ensures
            match r {
                Some(v) => self@.as_array() == Some(v@.map_values(|x: JsonValue| x@)),
                None => self@.as_array() is None,
            },
    {
        match self {
            JsonValue::Array(v) => {
                assert(self@->Arr_0 =~= v@.map_values(|x: JsonValue| x@));
                Some(v)
            },
            _ => None,
        }
    }

    pub fn as_object(&self) -> (r: Option<&Vec<(String, JsonValue)>>)
        ensures
            match r {
                Some(m) => self@.as_object() == Some(m@.map_values(|x: (String, JsonValue)| (x.0@, x.1@))),
                None => self@.as_object() is None,
            },
    {
        match self {
            JsonValue::Object(m) => {
                assert(self@->Obj_0 =~= m@.map_values(|x: (String, JsonValue)| (x.0@, x.1@)));
                Some(m)
            },
            _ => None,
        }
    }

    pub fn is_null(&self) -> (r: bool)
        ensures
            r == (self@ == Json::Null),
    {
        match self {
            JsonValue::Null => true,
            _ => false,
        }
    }

    pub fn is_string(&self) -> (r: bool)
        ensures
            r == (self@ is Str),
    {
        match self {
            JsonValue::String(_) => true,
            _ => false,
        }
    }

    pub fn is_array(&self) -> (r: bool)
        ensures
            r == (self@ is Arr),
    {
        match self {
            JsonValue::Array(_) => true,
            _ => false,
        }
    }

    pub fn is_object(&self) -> (r: bool)
        ensures
            r == (self@ is Obj),
    {
        match self {
            JsonValue::Object(_) => true,
            _ => false,
        }
    }
}


impl JsonNumber {
    /// A copy of the number.
    pub fn duplicate(&self) -> (r: JsonNumber)
        ensures
            r@ == self@,
    {
        match self {
            JsonNumber::PosInt(u) => JsonNumber::PosInt(*u),
            JsonNumber::NegInt(i) => JsonNumber::NegInt(*i),
            JsonNumber::Float(t) => JsonNumber::Float(t.clone()),
        }
    }
}

impl JsonValue {
    /// A deep copy of the value.
    pub fn duplicate(&self) -> (r: JsonValue)
        ensures
            r@ == self@,
        decreases self,
    {
        match self {
            JsonValue::Null => JsonValue::Null,
            JsonValue::Bool(b) => JsonValue::Bool(*b),
            JsonValue::Number(n) => JsonValue::Number(n.duplicate()),
            JsonValue::String(s) => JsonValue::String(s.clone()),
            JsonValue::Array(v) => {
                let mut out: Vec<JsonValue> = Vec::new();
                let mut i: usize = 0;
                while i < v.len()
                    invariant
                        i <= v@.len(),
                        out@.len() == i,
                        forall|k: int| 0 <= k < i ==> #[trigger] out@[k]@ == v@[k]@,
                        *self == JsonValue::Array(*v),
                    decreases v.len() - i,
                {
                    proof {
                        assert(decreases_to!(*self => self->Array_0));
                        assert(decreases_to!(*v => v@));
                        assert(decreases_to!(v@ => v@[i as int]));
                    }
                    let e = v[i].duplicate();
                    out.push(e);
                    i += 1;
                }
                let r = JsonValue::Array(out);
                assert(r@->Arr_0 =~= self@->Arr_0) by {
                    assert forall|k: int| 0 <= k < v@.len() implies r@->Arr_0[k] == self@->Arr_0[k] by {
                        assert(out@[k]@ == v@[k]@);
                    }
                }
                r
            },
            JsonValue::Object(m) => {
                let mut out: Vec<(String, JsonValue)> = Vec::new();
                let mut i: usize = 0;
                while i < m.len()
                    invariant
                        i <= m@.len(),
                        out@.len() == i,
                        forall|k: int|
                            0 <= k < i ==> (#[trigger] out@[k]).0@ == m@[k].0@ && out@[k].1@ == m@[k].1@,
                        *self == JsonValue::Object(*m),
                    decreases m.len() - i,
                {
                    proof {
                        assert(decreases_to!(*self => self->Object_0));
                        assert(decreases_to!(*m => m@));
                        assert(decreases_to!(m@ => m@[i as int]));
                        assert(decreases_to!(m@[i as int] => m@[i as int].1));
                    }
                    let e = m[i].1.duplicate();
                    let k = m[i].0.clone();
                    out.push((k, e));
                    i += 1;
                }
                let r = JsonValue::Object(out);
                assert(r@->Obj_0 =~= self@->Obj_0) by {
                    assert forall|k: int| 0 <= k < m@.len() implies r@->Obj_0[k] == self@->Obj_0[k] by {
                        assert(out@[k].0@ == m@[k].0@ && out@[k].1@ == m@[k].1@);
                    }
                }
                r
            },
        }
    }

    /// A string value holding the text of `s`.
    pub fn from_str(s: &str) -> (r: JsonValue)
        ensures
            r@ == Json::Str(s@),
    {
        JsonValue::String(s.to_owned())
    }
}
} // verus!
