//! A JSON value the library can read and build.
use vstd::prelude::*;

verus! {

broadcast use {
    vstd::std_specs::vec::axiom_vec_decreases_to_view,
    vstd::std_specs::vec::axiom_vec_index_decreases,
};

pub enum JsonNumber {
    PosInt(u64),
    NegInt(i64),
    Float(String),
}

pub struct Member {
    pub key: String,
    pub value: Json,
}

pub enum Json {
    Null,
    Bool(bool),
    Number(JsonNumber),
    Str(String),
    Array(Vec<Json>),
    Object(Vec<Member>),
}

pub enum NumberView {
    PosInt(u64),
    NegInt(i64),
    Float(Seq<char>),
}

pub enum JsonView {
    Null,
    Bool(bool),
    Number(NumberView),
    Str(Seq<char>),
    Array(Seq<JsonView>),
    Object(Seq<(Seq<char>, JsonView)>),
}

pub open spec fn json_view(j: Json) -> JsonView
    decreases j,
{
    match j {
        Json::Null => JsonView::Null,
        Json::Bool(b) => JsonView::Bool(b),
        Json::Number(n) => JsonView::Number(
            match n {
                JsonNumber::PosInt(u) => NumberView::PosInt(u),
                JsonNumber::NegInt(i) => NumberView::NegInt(i),
                JsonNumber::Float(t) => NumberView::Float(t@),
            },
        ),
        Json::Str(s) => JsonView::Str(s@),
        Json::Array(v) => JsonView::Array(
            Seq::new(
                v@.len(),
                |i: int|
                    if 0 <= i < v@.len() {
                        json_view(v@[i])
                    } else {
                        JsonView::Null
                    },
            ),
        ),
        Json::Object(m) => JsonView::Object(
            Seq::new(
                m@.len(),
                |i: int|
                    if 0 <= i < m@.len() {
                        (m@[i].key@, json_view(m@[i].value))
                    } else {
                        (Seq::empty(), JsonView::Null)
                    },
            ),
        ),
    }
}


impl View for Json {
    type V = JsonView;

    open spec fn view(&self) -> JsonView {
        json_view(*self)
    }
}

pub open spec fn seq_view(v: Seq<Json>) -> Seq<JsonView> {
    Seq::new(v.len(), |i: int| json_view(v[i]))
}

pub open spec fn members_view(m: Seq<Member>) -> Seq<(Seq<char>, JsonView)> {
    Seq::new(m.len(), |i: int| (m[i].key@, json_view(m[i].value)))
}

pub proof fn lemma_view_array(v: Vec<Json>)
    ensures
        json_view(Json::Array(v)) == JsonView::Array(seq_view(v@)),
{
    let j = json_view(Json::Array(v));
    assert(j->Array_0 =~= seq_view(v@));
}

pub proof fn lemma_view_object(m: Vec<Member>)
    ensures
        json_view(Json::Object(m)) == JsonView::Object(members_view(m@)),
{
    let j = json_view(Json::Object(m));
    assert(j->Object_0 =~= members_view(m@));
}

/// The value under `key` in an object (the first member with that key); `None` for
/// a missing key or a value that is not an object (`Value::get` with a `&str`).
pub open spec fn obj_get(j: JsonView, key: Seq<char>) -> Option<JsonView> {
    match j {
        JsonView::Object(m) => member_lookup(m, key),
        _ => None,
    }
}

pub open spec fn member_lookup(m: Seq<(Seq<char>, JsonView)>, key: Seq<char>) -> Option<JsonView>
    decreases m.len(),
{
    if m.len() == 0 {
        None
    } else if m[0].0 == key {
        Some(m[0].1)
    } else {
        member_lookup(m.drop_first(), key)
    }
}

/// `Value::as_str`.
pub open spec fn as_str_spec(j: JsonView) -> Option<Seq<char>> {
    match j {
        JsonView::Str(s) => Some(s),
        _ => None,
    }
}

/// `Value::as_u64`: non-negative integers only.
pub open spec fn as_u64_spec(j: JsonView) -> Option<u64> {
    match j {
        JsonView::Number(NumberView::PosInt(u)) => Some(u),
        _ => None,
    }
}

/// `Value::as_i64`: integers that fit in 64 signed bits.
pub open spec fn as_i64_spec(j: JsonView) -> Option<i64> {
    match j {
        JsonView::Number(NumberView::PosInt(u)) => if u <= i64::MAX as u64 {
            Some(u as i64)
        } else {
            None
        },
        JsonView::Number(NumberView::NegInt(i)) => Some(i),
        _ => None,
    }
}

/// `Value::as_bool`.
pub open spec fn as_bool_spec(j: JsonView) -> Option<bool> {
    match j {
        JsonView::Bool(b) => Some(b),
        _ => None,
    }
}

/// `Value::as_array`.
pub open spec fn as_array_spec(j: JsonView) -> Option<Seq<JsonView>> {
    match j {
        JsonView::Array(a) => Some(a),
        _ => None,
    }
}


pub open spec fn same_member(a: Member, b: Member) -> bool {
    a.key@ == b.key@ && json_view(a.value) == json_view(b.value)
}

impl JsonNumber {
    pub fn copy(&self) -> (r: JsonNumber)
        ensures
            json_view(Json::Number(r)) == json_view(Json::Number(*self)),
    {
        match self {
            JsonNumber::PosInt(u) => JsonNumber::PosInt(*u),
            JsonNumber::NegInt(i) => JsonNumber::NegInt(*i),
            JsonNumber::Float(t) => JsonNumber::Float(t.clone()),
        }
    }
}

impl Json {
    /// A copy of the value.
    #[verifier::loop_isolation(false)]
    pub fn copy(&self) -> (r: Json)
        ensures
            r@ == self@,
        decreases self,
    {
        match self {
            Json::Null => Json::Null,
            Json::Bool(b) => Json::Bool(*b),
            Json::Number(n) => Json::Number(n.copy()),
            Json::Str(s) => Json::Str(s.clone()),
            Json::Array(v) => {
                let mut out: Vec<Json> = Vec::new();
                let mut i: usize = 0;
                while i < v.len()
                    invariant
                        i <= v@.len(),
                        out@.len() == i,
                        forall|j: int| 0 <= j < i ==> #[trigger] json_view(out@[j]) == json_view(
                            v@[j],
                        ),
                    decreases v.len() - i,
                {
                    assert(decreases_to!(*v => v[i as int]));
                    let c = v[i].copy();
                    out.push(c);
                    i += 1;
                }
                proof {
                    lemma_view_array(*v);
                    lemma_view_array(out);
                    assert(seq_view(out@) =~= seq_view(v@));
                }
                Json::Array(out)
            },
            Json::Object(m) => {
                let mut out: Vec<Member> = Vec::new();
                let mut i: usize = 0;
                while i < m.len()
                    invariant
                        i <= m@.len(),
                        out@.len() == i,
                        forall|j: int| 0 <= j < i ==> #[trigger] same_member(out@[j], m@[j]),
                    decreases m.len() - i,
                {
                    assert(decreases_to!(*m => m[i as int]));
                    let c = m[i].value.copy();
                    let k = m[i].key.clone();
                    let ghost prev = out@;
                    assert(k@ == m@[i as int].key@);
                    assert(json_view(c) == json_view(m@[i as int].value));
                    out.push(Member { key: k, value: c });
                    assert(out@[i as int].key@ == m@[i as int].key@);
                    assert forall|j: int| 0 <= j < i + 1 implies #[trigger] same_member(
                        out@[j],
                        m@[j],
                    ) by {
                        if j < i {
                            assert(out@[j] == prev[j]);
                        }
                    }
                    i += 1;
                }
                proof {
                    lemma_view_object(*m);
                    lemma_view_object(out);
                    assert forall|j: int| 0 <= j < m@.len() implies members_view(out@)[j]
                        == members_view(m@)[j] by {
                        assert(same_member(out@[j], m@[j]));
                    }
                    assert(members_view(out@) =~= members_view(m@));
                }
                Json::Object(out)
            },
        }
    }

    /// `Value::get(key)` on an object.
    pub fn get(&self, key: &str) -> (r: Option<&Json>)
        ensures
            match obj_get(self@, key@) {
                Some(v) => r matches Some(x) && x@ == v,
                None => r is None,
            },
    {
        match self {
            Json::Object(m) => {
                proof {
                    lemma_view_object(*m);
                }
                let ghost mv = members_view(m@);
                assert(mv.skip(0) =~= mv);
                let mut i: usize = 0;
                while i < m.len()
                    invariant
                        i <= m@.len(),
                        mv == members_view(m@),
                        self@ == JsonView::Object(mv),
                        member_lookup(mv, key@) == member_lookup(mv.skip(i as int), key@),
                    decreases m.len() - i,
                {
                    assert(mv.skip(i as int).drop_first() =~= mv.skip(i + 1));
                    if crate::text::str_eq(m[i].key.as_str(), key) {
                        assert(mv.skip(i as int)[0] == mv[i as int]);
                        assert(mv[i as int] == (m@[i as int].key@, json_view(m@[i as int].value)));
                        return Some(&m[i].value);
                    }
                    i += 1;
                }
                None
            },
            _ => None,
        }
    }

    /// `Value::as_str`.
    pub fn as_str(&self) -> (r: Option<&str>)
        ensures
            match as_str_spec(self@) {
                Some(s) => r matches Some(x) && x@ == s,
                None => r is None,
            },
    {
        match self {
            Json::Str(s) => Some(s.as_str()),
            _ => None,
        }
    }

    /// `Value::as_u64`.
    pub fn as_u64(&self) -> (r: Option<u64>)
        ensures
            r == as_u64_spec(self@),
    {
        match self {
            Json::Number(JsonNumber::PosInt(u)) => Some(*u),
            _ => None,
        }
    }

    /// `Value::as_i64`.
    pub fn as_i64(&self) -> (r: Option<i64>)
        ensures
            r == as_i64_spec(self@),
    {
        match self {
            Json::Number(JsonNumber::PosInt(u)) => {
                if *u <= 0x7fff_ffff_ffff_ffff {
                    Some(*u as i64)
                } else {
                    None
                }
            },
            Json::Number(JsonNumber::NegInt(i)) => Some(*i),
            _ => None,
        }
    }

    /// `Value::as_bool`.
    pub fn as_bool(&self) -> (r: Option<bool>)
        ensures
            r == as_bool_spec(self@),
    {
        match self {
            Json::Bool(b) => Some(*b),
            _ => None,
        }
    }

    /// `Value::as_array`.
    pub fn as_array(&self) -> (r: Option<&Vec<Json>>)
        ensures
            match as_array_spec(self@) {
                Some(a) => r matches Some(v) && seq_view(v@) == a,
                None => r is None,
            },
    {
        match self {
            Json::Array(v) => {
                proof {
                    lemma_view_array(*v);
                }
                Some(v)
            },
            _ => None,
        }
    }

    /// A JSON string holding `s`.
    pub fn from_str(s: &str) -> (r: Json)
        ensures
            r@ == JsonView::Str(s@),
    {
        Json::Str(s.to_owned())
    }

    /// An object from its members, in order.
    pub fn object(m: Vec<Member>) -> (r: Json)
        ensures
            r@ == JsonView::Object(members_view(m@)),
    {
        proof {
            lemma_view_object(m);
        }
        Json::Object(m)
    }

    /// An array of the given values.
    pub fn array(v: Vec<Json>) -> (r: Json)
        ensures
            r@ == JsonView::Array(seq_view(v@)),
    {
        proof {
            lemma_view_array(v);
        }
        Json::Array(v)
    }

    /// A non-negative integer.
    pub fn uint(u: u64) -> (r: Json)
        ensures
            r@ == JsonView::Number(NumberView::PosInt(u)),
    {
        Json::Number(JsonNumber::PosInt(u))
    }
}

/// A member `key: value`.
pub fn member(key: &str, value: Json) -> (r: Member)
    ensures
        r.key@ == key@,
        r.value@ == value@,
{
    Member { key: key.to_owned(), value }
}

// ------------------------------------------------------------- builders

/// `{k1: v1}`.
pub fn obj1(k1: &str, v1: Json) -> (r: Json)
    ensures
        r@ == JsonView::Object(seq![(k1@, v1@)]),
{
    let mut m: Vec<Member> = Vec::new();
    m.push(member(k1, v1));
    let r = Json::object(m);
    assert(members_view(m@) =~= seq![(k1@, v1@)]);
    r
}

/// `{k1: v1, k2: v2}`.
pub fn obj2(k1: &str, v1: Json, k2: &str, v2: Json) -> (r: Json)
    ensures
        r@ == JsonView::Object(seq![(k1@, v1@), (k2@, v2@)]),
{
    let ghost (a, b) = (v1@, v2@);
    let mut m: Vec<Member> = Vec::new();
    m.push(member(k1, v1));
    m.push(member(k2, v2));
    let r = Json::object(m);
    assert(members_view(m@) =~= seq![(k1@, a), (k2@, b)]);
    r
}

/// `{k1: v1, k2: v2, k3: v3}`.
pub fn obj3(k1: &str, v1: Json, k2: &str, v2: Json, k3: &str, v3: Json) -> (r: Json)
    ensures
        r@ == JsonView::Object(seq![(k1@, v1@), (k2@, v2@), (k3@, v3@)]),
{
    let ghost (a, b, c) = (v1@, v2@, v3@);
    let mut m: Vec<Member> = Vec::new();
    m.push(member(k1, v1));
    m.push(member(k2, v2));
    m.push(member(k3, v3));
    let r = Json::object(m);
    assert(members_view(m@) =~= seq![(k1@, a), (k2@, b), (k3@, c)]);
    r
}

/// `{k1: v1, k2: v2, k3: v3, k4: v4}`.
pub fn obj4(k1: &str, v1: Json, k2: &str, v2: Json, k3: &str, v3: Json, k4: &str, v4: Json) -> (r:
    Json)
    ensures
        r@ == JsonView::Object(seq![(k1@, v1@), (k2@, v2@), (k3@, v3@), (k4@, v4@)]),
{
    let ghost (a, b, c, d) = (v1@, v2@, v3@, v4@);
    let mut m: Vec<Member> = Vec::new();
    m.push(member(k1, v1));
    m.push(member(k2, v2));
    m.push(member(k3, v3));
    m.push(member(k4, v4));
    let r = Json::object(m);
    assert(members_view(m@) =~= seq![(k1@, a), (k2@, b), (k3@, c), (k4@, d)]);
    r
}

/// Appends the member `key: value`.
pub fn push_member(m: &mut Vec<Member>, key: &str, value: Json)
    ensures
        members_view(final(m)@) == members_view(old(m)@).push((key@, value@)),
{
    let ghost before = members_view(m@);
    let ghost vv = value@;
    m.push(member(key, value));
    assert(members_view(m@) =~= before.push((key@, vv)));
}

/// A string value, or `null` for nothing.
pub fn str_or_null(s: Option<&str>) -> (r: Json)
    ensures
        r@ == (match s {
            Some(x) => JsonView::Str(x@),
            None => JsonView::Null,
        }),
{
    match s {
        Some(x) => Json::from_str(x),
        None => Json::Null,
    }
}

} // verus!
