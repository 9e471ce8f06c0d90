//! JSON documents as the library holds them, with their mathematical model:
//! reading members, building objects kept in key order, and comparing keys.
use vstd::prelude::*;

verus! {

broadcast use vstd::std_specs::vec::group_vec_axioms;

/// A JSON number, kept as the value it holds: a non-negative integer, a
/// negative integer, or any other number by its decimal text.
#[derive(Debug, Clone, PartialEq)]
pub enum JsonNumber {
    PosInt(u64),
    NegInt(i64),
    Float(String),
}

/// A JSON document.
#[derive(Debug, PartialEq)]
pub enum Json {
    Null,
    Bool(bool),
    Number(JsonNumber),
    String(String),
    Array(Vec<Json>),
    Object(Vec<(String, Json)>),
}

/// The mathematical model of a JSON number.
pub enum NumV {
    PosInt(u64),
    NegInt(i64),
    Float(Seq<char>),
}

/// The mathematical model of a JSON document.
pub enum JsonV {
    Null,
    Bool(bool),
    Number(NumV),
    Str(Seq<char>),
    Array(Seq<JsonV>),
    Object(Seq<(Seq<char>, JsonV)>),
}

/// The models of a list of documents.
pub open spec fn vview(v: Seq<Json>) -> Seq<JsonV> {
    v.map_values(|j: Json| j@)
}

pub open spec fn num_view(n: JsonNumber) -> NumV {
    match n {
        JsonNumber::PosInt(u) => NumV::PosInt(u),
        JsonNumber::NegInt(i) => NumV::NegInt(i),
        JsonNumber::Float(s) => NumV::Float(s@),
    }
}

pub open spec fn json_view(j: Json) -> JsonV
    decreases j,
{
    match j {
        Json::Null => JsonV::Null,
        Json::Bool(b) => JsonV::Bool(b),
        Json::Number(n) => JsonV::Number(num_view(n)),
        Json::String(s) => JsonV::Str(s@),
        Json::Array(a) => JsonV::Array(
            Seq::new(a@.len(), |i: int| if 0 <= i < a@.len() { json_view(a@[i]) } else { JsonV::Null }),
        ),
        Json::Object(es) => JsonV::Object(
            Seq::new(es@.len(), |i: int| if 0 <= i < es@.len() { (es@[i].0@, json_view(es@[i].1)) } else { (Seq::empty(), JsonV::Null) }),
        ),
    }
}

/// The model of an array lists the models of its elements.
pub broadcast proof fn lemma_array_view(a: Vec<Json>)
    ensures
        #[trigger] json_view(Json::Array(a)) is Array,
        json_view(Json::Array(a))->Array_0.len() == a@.len(),
        forall|i: int| 0 <= i < a@.len() ==> json_view(Json::Array(a))->Array_0[i] == json_view(#[trigger] a@[i]),
{
}

/// The model of an object lists its keys, in order, with the models of their values.
pub broadcast proof fn lemma_object_view(es: Vec<(String, Json)>)
    ensures
        #[trigger] json_view(Json::Object(es)) is Object,
        json_view(Json::Object(es))->Object_0.len() == es@.len(),
        forall|i: int| 0 <= i < es@.len() ==> json_view(Json::Object(es))->Object_0[i] == (#[trigger] es@[i].0@, json_view(es@[i].1)),
{
}

pub broadcast group group_json_view {
    lemma_array_view,
    lemma_object_view,
}

impl View for Json {
    type V = JsonV;

    open spec fn view(&self) -> JsonV {
        json_view(*self)
    }
}

pub fn clone_json(j: &Json) -> (r: Json)
    ensures
        r@ == j@,
    decreases j,
{
    match j {
        Json::Null => Json::Null,
        Json::Bool(b) => Json::Bool(*b),
        Json::Number(JsonNumber::PosInt(u)) => Json::Number(JsonNumber::PosInt(*u)),
        Json::Number(JsonNumber::NegInt(i)) => Json::Number(JsonNumber::NegInt(*i)),
        Json::Number(JsonNumber::Float(s)) => { let r = Json::Number(JsonNumber::Float(s.clone())); assert(r@ == j@); r },
        Json::String(s) => { let r = Json::String(s.clone()); assert(r@ == j@); r },
        Json::Array(a) => {
            let mut out: Vec<Json> = Vec::new();
            let mut i: usize = 0;
            while i < a.len()
                invariant
                    i <= a.len(),
                    *j == Json::Array(*a),
                    out@.len() == i,
                    forall|k: int| 0 <= k < i ==> json_view(#[trigger] out@[k]) == json_view(a@[k]),
                decreases a.len() - i,
            {
                proof {
                    vstd::std_specs::vec::axiom_vec_index_decreases(*a, i as int);
                    assert(decreases_to!(*j => (*j)->Array_0));
                    assert(decreases_to!(*a => a[i as int]));
                }
                let c = clone_json(&a[i]);
                out.push(c);
                i += 1;
            }
            let r = Json::Array(out);
            proof {
                lemma_array_view(r->Array_0);
                lemma_array_view(*a);
                assert(r@->Array_0 =~= j@->Array_0);
            }
            r
        },
        Json::Object(es) => {
            let mut out: Vec<(String, Json)> = Vec::new();
            let mut i: usize = 0;
            while i < es.len()
                invariant
                    i <= es.len(),
                    *j == Json::Object(*es),
                    out@.len() == i,
                    forall|k: int| 0 <= k < i ==> (#[trigger] out@[k]).0@ == es@[k].0@ && json_view(out@[k].1) == json_view(es@[k].1),
                decreases es.len() - i,
            {
                proof {
                    vstd::std_specs::vec::axiom_vec_index_decreases(*es, i as int);
                    assert(decreases_to!(*j => (*j)->Object_0));
                    assert(decreases_to!(*es => es[i as int]));
                    assert(decreases_to!(es[i as int] => es[i as int].1));
                }
                let k = es[i].0.clone();
                let v = clone_json(&es[i].1);
                out.push((k, v));
                i += 1;
            }
            let r = Json::Object(out);
            proof {
                lemma_object_view(r->Object_0);
                lemma_object_view(*es);
                assert(r@->Object_0 =~= j@->Object_0);
            }
            r
        },
    }
}


// ---------------------------------------------------------------------------
// Reading a document (the model side)
// ---------------------------------------------------------------------------

/// The value under `key` in a list of object entries: the first entry
/// with that key.
pub open spec fn obj_lookup(es: Seq<(Seq<char>, JsonV)>, key: Seq<char>) -> Option<JsonV>
    decreases es.len(),
{
    if es.len() == 0 {
        None
    } else if es[0].0 == key {
        Some(es[0].1)
    } else {
        obj_lookup(es.drop_first(), key)
    }
}

/// `Value::get` with a string key: the member of an object, if any.
pub open spec fn get_v(v: JsonV, key: Seq<char>) -> Option<JsonV> {
    match v {
        JsonV::Object(es) => obj_lookup(es, key),
        _ => None,
    }
}

/// `value[key]`: the member of an object, or null.
pub open spec fn at_v(v: JsonV, key: Seq<char>) -> JsonV {
    match get_v(v, key) {
        Some(x) => x,
        None => JsonV::Null,
    }
}

/// `Value::as_str`.
pub open spec fn as_str_v(v: JsonV) -> Option<Seq<char>> {
    match v {
        JsonV::Str(s) => Some(s),
        _ => None,
    }
}

/// `Value::as_u64`.
pub open spec fn as_u64_v(v: JsonV) -> Option<u64> {
    match v {
        JsonV::Number(NumV::PosInt(u)) => Some(u),
        _ => None,
    }
}

/// `Value::as_bool`.
pub open spec fn as_bool_v(v: JsonV) -> Option<bool> {
    match v {
        JsonV::Bool(b) => Some(b),
        _ => None,
    }
}

/// `Value::as_array`.
pub open spec fn as_array_v(v: JsonV) -> Option<Seq<JsonV>> {
    match v {
        JsonV::Array(a) => Some(a),
        _ => None,
    }
}

/// The model of `json!(n)` for an unsigned integer.
pub open spec fn u64_v(n: u64) -> JsonV {
    JsonV::Number(NumV::PosInt(n))
}

/// The model of `json!(n)` for a signed integer: serde_json keeps
/// non-negative values as unsigned.
pub open spec fn i64_v(n: i64) -> JsonV {
    if n < 0 {
        JsonV::Number(NumV::NegInt(n))
    } else {
        JsonV::Number(NumV::PosInt(n as u64))
    }
}

/// Lexicographic order of texts by character, which is the order of
/// `str` (UTF-8 byte order preserves the order of code points).
pub open spec fn chars_lt(a: Seq<char>, b: Seq<char>) -> bool
    decreases a.len(),
{
    if a.len() == 0 {
        b.len() > 0
    } else if b.len() == 0 {
        false
    } else if a[0] != b[0] {
        a[0] < b[0]
    } else {
        chars_lt(a.drop_first(), b.drop_first())
    }
}

/// No text comes before itself.
pub proof fn lemma_chars_lt_irrefl(a: Seq<char>)
    ensures
        !chars_lt(a, a),
    decreases a.len(),
{
    if a.len() > 0 {
        lemma_chars_lt_irrefl(a.drop_first());
    }
}

/// Of two different texts, one comes first, and not both.
pub proof fn lemma_chars_lt_total(a: Seq<char>, b: Seq<char>)
    ensures
        a != b ==> (chars_lt(a, b) || chars_lt(b, a)),
        !(chars_lt(a, b) && chars_lt(b, a)),
    decreases a.len(),
{
    if a.len() > 0 && b.len() > 0 && a[0] == b[0] {
        lemma_chars_lt_total(a.drop_first(), b.drop_first());
        if a != b {
            assert(a.drop_first() != b.drop_first()) by {
                if a.drop_first() == b.drop_first() {
                    assert(a =~= seq![a[0]] + a.drop_first());
                    assert(b =~= seq![b[0]] + b.drop_first());
                }
            }
        }
    }
    if a.len() == 0 && b.len() == 0 {
        assert(a =~= b);
    }
}

/// The order of texts is transitive.
pub proof fn lemma_chars_lt_trans(a: Seq<char>, b: Seq<char>, c: Seq<char>)
    requires
        chars_lt(a, b),
        chars_lt(b, c),
    ensures
        chars_lt(a, c),
    decreases a.len(),
{
    if a.len() > 0 && a[0] == b[0] && b[0] == c[0] {
        lemma_chars_lt_trans(a.drop_first(), b.drop_first(), c.drop_first());
    }
}

/// The keys of an object's entries, in order.
pub open spec fn keys_of(es: Seq<(Seq<char>, JsonV)>) -> Seq<Seq<char>> {
    es.map_values(|e: (Seq<char>, JsonV)| e.0)
}

proof fn lemma_lookup_first(es: Seq<(Seq<char>, JsonV)>, key: Seq<char>, i: int)
    requires
        0 <= i <= es.len(),
        forall|k: int| 0 <= k < i ==> es[k].0 != key,
        i < es.len() ==> es[i].0 == key,
    ensures
        i < es.len() ==> obj_lookup(es, key) == Some(es[i].1),
        i == es.len() ==> obj_lookup(es, key) is None,
    decreases i,
{
    if i > 0 {
        lemma_lookup_first(es.drop_first(), key, i - 1);
    }
}

/// If no entry has `key`, looking it up gives nothing; otherwise the
/// first entry with it answers.
/// Reading a key after adding an entry at the end: an earlier entry with
/// the key wins; else the new entry, if it has the key.
pub proof fn lemma_lookup_push(es: Seq<(Seq<char>, JsonV)>, e: (Seq<char>, JsonV), key: Seq<char>)
    ensures
        obj_lookup(es.push(e), key) == (match obj_lookup(es, key) {
            Some(v) => Some(v),
            None => if e.0 == key { Some(e.1) } else { None },
        }),
    decreases es.len(),
{
    let ps = es.push(e);
    if es.len() > 0 {
        assert(ps[0] == es[0]);
        assert(ps.drop_first() =~= es.drop_first().push(e));
        lemma_lookup_push(es.drop_first(), e, key);
        if es[0].0 != key {
            assert(obj_lookup(ps, key) == obj_lookup(ps.drop_first(), key));
            assert(obj_lookup(es, key) == obj_lookup(es.drop_first(), key));
        }
    } else {
        assert(ps[0] == e);
        assert(ps.drop_first() =~= Seq::<(Seq<char>, JsonV)>::empty());
        assert(obj_lookup(ps.drop_first(), key) is None);
        assert(obj_lookup(es, key) is None);
    }
}

pub proof fn lemma_lookup_absent(es: Seq<(Seq<char>, JsonV)>, key: Seq<char>)
    requires
        forall|k: int| 0 <= k < es.len() ==> es[k].0 != key,
    ensures
        obj_lookup(es, key) is None,
{
    lemma_lookup_first(es, key, es.len() as int);
}

pub proof fn lemma_lookup_at(es: Seq<(Seq<char>, JsonV)>, key: Seq<char>, i: int)
    requires
        0 <= i < es.len(),
        forall|k: int| 0 <= k < i ==> es[k].0 != key,
        es[i].0 == key,
    ensures
        obj_lookup(es, key) == Some(es[i].1),
{
    lemma_lookup_first(es, key, i);
}

// ---------------------------------------------------------------------------
// Reading a document (the executable side)
// ---------------------------------------------------------------------------

impl Json {
    /// `Value::get` with a string key.
    pub fn get(&self, key: &str) -> (r: Option<&Json>)
        ensures
            r matches Some(x) ==> get_v(self@, key@) == Some(x@),
            r is None ==> get_v(self@, key@) is None,
    {
        match self {
            Json::Object(es) => {
                proof { lemma_object_view(*es); }
                let mut i: usize = 0;
                while i < es.len()
                    invariant
                        i <= es.len(),
                        *self == Json::Object(*es),
                        forall|k: int| 0 <= k < i ==> (#[trigger] es@[k]).0@ != key@,
                    decreases es.len() - i,
                {
                    if crate::text::str_eq(es[i].0.as_str(), key) {
                        proof {
                            lemma_object_view(*es);
                            lemma_lookup_at(self@->Object_0, key@, i as int);
                        }
                        return Some(&es[i].1);
                    }
                    i += 1;
                }
                proof {
                    lemma_object_view(*es);
                    lemma_lookup_absent(self@->Object_0, key@);
                }
                None
            },
            _ => None,
        }
    }

    /// `Value::as_str`.
    pub fn as_str(&self) -> (r: Option<&str>)
        ensures
            r matches Some(x) ==> as_str_v(self@) == Some(x@),
            r is None ==> as_str_v(self@) is None,
    {
        match self {
            Json::String(s) => Some(s.as_str()),
            _ => None,
        }
    }

    /// `Value::as_u64`.
    pub fn as_u64(&self) -> (r: Option<u64>)
        ensures
            r == as_u64_v(self@),
    {
        match self {
            Json::Number(JsonNumber::PosInt(u)) => Some(*u),
            _ => None,
        }
    }

    /// `Value::as_bool`.
    pub fn as_bool(&self) -> (r: Option<bool>)
        ensures
            r == as_bool_v(self@),
    {
        match self {
            Json::Bool(b) => Some(*b),
            _ => None,
        }
    }

    /// `Value::as_array`.
    pub fn as_array(&self) -> (r: Option<&Vec<Json>>)
        ensures
            r matches Some(a) ==> as_array_v(self@) == Some(Json::Array(*a)@->Array_0),
            r is None ==> as_array_v(self@) is None,
    {
        match self {
            Json::Array(a) => Some(a),
            _ => None,
        }
    }

    /// `Value::is_object`.
    pub fn is_object(&self) -> (r: bool)
        ensures
            r == self@ is Object,
    {
        match self {
            Json::Object(_) => true,
            _ => false,
        }
    }

    /// `Value::is_null`.
    pub fn is_null(&self) -> (r: bool)
        ensures
            r == self@ is Null,
    {
        match self {
            Json::Null => true,
            _ => false,
        }
    }

    /// A JSON string.
    pub fn str(s: &str) -> (r: Json)
        ensures
            r@ == JsonV::Str(s@),
    {
        Json::String(crate::text::owned(s))
    }

    /// `json!(n)` for an unsigned integer.
    pub fn from_u64(n: u64) -> (r: Json)
        ensures
            r@ == u64_v(n),
    {
        Json::Number(JsonNumber::PosInt(n))
    }

    /// `json!(n)` for a signed integer.
    pub fn from_i64(n: i64) -> (r: Json)
        ensures
            r@ == i64_v(n),
    {
        if n < 0 {
            Json::Number(JsonNumber::NegInt(n))
        } else {
            Json::Number(JsonNumber::PosInt(n as u64))
        }
    }

    /// An empty JSON array.
    pub fn empty_array() -> (r: Json)
        ensures
            r@ == JsonV::Array(Seq::empty()),
    {
        let r = Json::Array(Vec::new());
        proof { lemma_array_view(r->Array_0); }
        assert(r@->Array_0 =~= Seq::<JsonV>::empty());
        r
    }

    /// An empty JSON object.
    pub fn empty_object() -> (r: Json)
        ensures
            r@ == JsonV::Object(Seq::empty()),
    {
        let r = Json::Object(Vec::new());
        proof { lemma_object_view(r->Object_0); }
        assert(r@->Object_0 =~= Seq::<(Seq<char>, JsonV)>::empty());
        r
    }
}

/// `value[key]`, cloned: the member of an object, or null.
pub fn at(v: &Json, key: &str) -> (r: Json)
    ensures
        r@ == at_v(v@, key@),
{
    match v.get(key) {
        Some(x) => clone_json(x),
        None => Json::Null,
    }
}

/// `value[key].as_str()`.
pub fn str_at<'a>(v: &'a Json, key: &str) -> (r: Option<&'a str>)
    ensures
        r matches Some(x) ==> as_str_v(at_v(v@, key@)) == Some(x@),
        r is None ==> as_str_v(at_v(v@, key@)) is None,
{
    match v.get(key) {
        Some(x) => x.as_str(),
        None => None,
    }
}

/// `value[key].as_u64()`.
pub fn u64_at(v: &Json, key: &str) -> (r: Option<u64>)
    ensures
        r == as_u64_v(at_v(v@, key@)),
{
    match v.get(key) {
        Some(x) => x.as_u64(),
        None => None,
    }
}

/// `value[key].as_bool()`.
pub fn bool_at(v: &Json, key: &str) -> (r: Option<bool>)
    ensures
        r == as_bool_v(at_v(v@, key@)),
{
    match v.get(key) {
        Some(x) => x.as_bool(),
        None => None,
    }
}

/// `value[key].as_array()`.
pub fn array_at<'a>(v: &'a Json, key: &str) -> (r: Option<&'a Vec<Json>>)
    ensures
        r matches Some(a) ==> as_array_v(at_v(v@, key@)) == Some(Json::Array(*a)@->Array_0),
        r is None ==> as_array_v(at_v(v@, key@)) is None,
{
    match v.get(key) {
        Some(x) => x.as_array(),
        None => None,
    }
}

/// Character order of texts (`Ord` for `str`).
pub fn str_lt(a: &str, b: &str) -> (r: bool)
    ensures
        r == chars_lt(a@, b@),
{
    let x = crate::text::chars_of(a);
    let y = crate::text::chars_of(b);
    let mut i: usize = 0;
    assert(a@.subrange(0, a@.len() as int) =~= a@);
    assert(b@.subrange(0, b@.len() as int) =~= b@);
    while i < x.len() && i < y.len() && x[i] == y[i]
        invariant
            i <= x.len(),
            i <= y.len(),
            chars_lt(a@, b@) == chars_lt(a@.subrange(i as int, a@.len() as int), b@.subrange(i as int, b@.len() as int)),
            x@ == a@,
            y@ == b@,
        decreases x.len() - i,
    {
        assert(a@.subrange(i as int, a@.len() as int).drop_first() =~= a@.subrange(i + 1, a@.len() as int));
        assert(b@.subrange(i as int, b@.len() as int).drop_first() =~= b@.subrange(i + 1, b@.len() as int));
        i += 1;
    }
    if i == x.len() {
        i < y.len()
    } else if i == y.len() {
        false
    } else {
        x[i] < y[i]
    }
}

/// A list of object entries, with keys given as model texts.
pub open spec fn entries_v(es: Seq<(String, Json)>) -> Seq<(Seq<char>, JsonV)> {
    Seq::new(es.len(), |i: int| (es[i].0@, json_view(es[i].1)))
}

pub proof fn lemma_entries_v(es: Vec<(String, Json)>)
    ensures
        json_view(Json::Object(es))->Object_0 == entries_v(es@),
{
    lemma_object_view(es);
    assert(json_view(Json::Object(es))->Object_0 =~= entries_v(es@));
}

/// Where `Map::insert` puts a new key in an object kept in key order: after
/// the leading entries whose keys are smaller.
pub open spec fn insert_pos(es: Seq<(Seq<char>, JsonV)>, key: Seq<char>) -> int
    decreases es.len(),
{
    if es.len() == 0 || !chars_lt(es[0].0, key) {
        0
    } else {
        1 + insert_pos(es.drop_first(), key)
    }
}

/// `Map::insert` on an object kept in key order: the value under an
/// existing key is replaced in place; a new key goes before the first key
/// that is not smaller than it.
pub open spec fn obj_set(es: Seq<(Seq<char>, JsonV)>, key: Seq<char>, v: JsonV) -> Seq<(Seq<char>, JsonV)> {
    let p = insert_pos(es, key);
    if p < es.len() && es[p].0 == key {
        es.update(p, (key, v))
    } else {
        es.insert(p, (key, v))
    }
}

/// `value[key] = v` on an object.
pub open spec fn set_field_v(o: JsonV, key: Seq<char>, v: JsonV) -> JsonV {
    match o {
        JsonV::Object(es) => JsonV::Object(obj_set(es, key, v)),
        _ => o,
    }
}

proof fn lemma_insert_pos(es: Seq<(Seq<char>, JsonV)>, key: Seq<char>, p: int)
    requires
        0 <= p <= es.len(),
        forall|k: int| 0 <= k < p ==> chars_lt(#[trigger] es[k].0, key),
        p < es.len() ==> !chars_lt(es[p].0, key),
    ensures
        insert_pos(es, key) == p,
    decreases p,
{
    if p > 0 {
        lemma_insert_pos(es.drop_first(), key, p - 1);
    }
}

/// The keys of the entries are in strictly increasing order, as in a map
/// that keeps its keys sorted.
pub open spec fn keys_sorted(es: Seq<(Seq<char>, JsonV)>) -> bool {
    forall|i: int, j: int| 0 <= i < j < es.len() ==> chars_lt((#[trigger] es[i]).0, (#[trigger] es[j]).0)
}

proof fn lemma_lookup_prefix_absent(es: Seq<(Seq<char>, JsonV)>, key: Seq<char>, p: int)
    requires
        0 <= p <= es.len(),
        forall|k: int| 0 <= k < p ==> chars_lt((#[trigger] es[k]).0, key),
    ensures
        forall|k: int| 0 <= k < p ==> (#[trigger] es[k]).0 != key,
{
    assert forall|k: int| 0 <= k < p implies (#[trigger] es[k]).0 != key by {
        lemma_chars_lt_irrefl(key);
    }
}

proof fn lemma_insert_pos_props(es: Seq<(Seq<char>, JsonV)>, key: Seq<char>)
    ensures
        0 <= insert_pos(es, key) <= es.len(),
        forall|k: int| 0 <= k < insert_pos(es, key) ==> chars_lt((#[trigger] es[k]).0, key),
        insert_pos(es, key) < es.len() ==> !chars_lt(es[insert_pos(es, key)].0, key),
    decreases es.len(),
{
    if es.len() > 0 && chars_lt(es[0].0, key) {
        lemma_insert_pos_props(es.drop_first(), key);
        let p = insert_pos(es, key);
        assert forall|k: int| 0 <= k < p implies chars_lt((#[trigger] es[k]).0, key) by {
            if k > 0 {
                assert(es[k] == es.drop_first()[k - 1]);
            }
        }
    }
}

/// In a map kept in key order, reading a key after setting it gives the
/// value set; other keys read as before; the keys stay in order.
pub proof fn lemma_obj_set(es: Seq<(Seq<char>, JsonV)>, key: Seq<char>, v: JsonV)
    requires
        keys_sorted(es),
    ensures
        obj_lookup(obj_set(es, key, v), key) == Some(v),
        forall|other: Seq<char>| other != key ==> #[trigger] obj_lookup(obj_set(es, key, v), other) == obj_lookup(es, other),
        keys_sorted(obj_set(es, key, v)),
{
    let p = insert_pos(es, key);
    lemma_insert_pos_props(es, key);
    lemma_lookup_prefix_absent(es, key, p);
    let ns = obj_set(es, key, v);
    if p < es.len() && es[p].0 == key {
        assert(ns == es.update(p, (key, v)));
        assert forall|k: int| 0 <= k < p implies (#[trigger] ns[k]).0 != key by {
            assert(ns[k] == es[k]);
        }
        lemma_lookup_at(ns, key, p);
        assert forall|other: Seq<char>| other != key implies #[trigger] obj_lookup(ns, other) == obj_lookup(es, other) by {
            lemma_lookup_same_keys(es, ns, other, p);
        }
        assert forall|i: int, j: int| 0 <= i < j < ns.len() implies chars_lt((#[trigger] ns[i]).0, (#[trigger] ns[j]).0) by {
            assert(ns[i].0 == es[i].0 && ns[j].0 == es[j].0);
        }
    } else {
        assert(ns == es.insert(p, (key, v)));
        assert forall|k: int| 0 <= k < p implies (#[trigger] ns[k]).0 != key by {
            assert(ns[k] == es[k]);
        }
        lemma_lookup_at(ns, key, p);
        assert forall|other: Seq<char>| other != key implies #[trigger] obj_lookup(ns, other) == obj_lookup(es, other) by {
            lemma_lookup_insert_other(es, p, key, v, other);
        }
        if p < es.len() {
            lemma_chars_lt_total(es[p].0, key);
        }
        assert forall|i: int, j: int| 0 <= i < j < ns.len() implies chars_lt((#[trigger] ns[i]).0, (#[trigger] ns[j]).0) by {
            if j < p {
                assert(ns[i] == es[i] && ns[j] == es[j]);
            } else if j == p {
                assert(ns[i] == es[i]);
            } else if i < p {
                assert(ns[i] == es[i] && ns[j] == es[j - 1]);
            } else if i == p {
                assert(ns[j] == es[j - 1]);
                if j - 1 > p {
                    lemma_chars_lt_trans(key, es[p].0, es[j - 1].0);
                }
            } else {
                assert(ns[i] == es[i - 1] && ns[j] == es[j - 1]);
            }
        }
    }
}

proof fn lemma_lookup_same_keys(es: Seq<(Seq<char>, JsonV)>, ns: Seq<(Seq<char>, JsonV)>, other: Seq<char>, p: int)
    requires
        0 <= p < es.len(),
        ns.len() == es.len(),
        forall|k: int| 0 <= k < es.len() && k != p ==> #[trigger] ns[k] == es[k],
        ns[p].0 == es[p].0,
        es[p].0 != other,
    ensures
        obj_lookup(ns, other) == obj_lookup(es, other),
    decreases es.len(),
{
    if p > 0 {
        if es[0].0 != other {
            assert(ns[0] == es[0]);
            assert forall|k: int| 0 <= k < es.drop_first().len() && k != p - 1 implies #[trigger] ns.drop_first()[k] == es.drop_first()[k] by {
                assert(ns[k + 1] == es[k + 1]);
            }
            lemma_lookup_same_keys(es.drop_first(), ns.drop_first(), other, p - 1);
        } else {
            assert(ns[0] == es[0]);
        }
    } else {
        assert(ns[0].0 != other && es[0].0 != other);
        assert(ns.drop_first() =~= es.drop_first()) by {
            assert forall|k: int| 0 <= k < es.drop_first().len() implies ns.drop_first()[k] == es.drop_first()[k] by {
                assert(ns[k + 1] == es[k + 1]);
            }
        }
    }
}

proof fn lemma_lookup_insert_other(es: Seq<(Seq<char>, JsonV)>, p: int, key: Seq<char>, v: JsonV, other: Seq<char>)
    requires
        0 <= p <= es.len(),
        key != other,
    ensures
        obj_lookup(es.insert(p, (key, v)), other) == obj_lookup(es, other),
    decreases es.len(),
{
    let ns = es.insert(p, (key, v));
    if p == 0 {
        assert(ns[0].0 == key);
        assert(ns.drop_first() =~= es);
    } else {
        assert(ns[0] == es[0]);
        if es[0].0 != other {
            assert(ns.drop_first() =~= es.drop_first().insert(p - 1, (key, v)));
            lemma_lookup_insert_other(es.drop_first(), p - 1, key, v, other);
        }
    }
}

/// `Map::insert` on an object kept in key order.
pub fn obj_insert(es: &mut Vec<(String, Json)>, key: String, value: Json)
    ensures
        entries_v(final(es)@) == obj_set(entries_v(old(es)@), key@, value@),
{
    let ghost old_es = entries_v(es@);
    let mut p: usize = 0;
    while p < es.len() && str_lt(es[p].0.as_str(), key.as_str())
        invariant
            p <= es.len(),
            es@ == old(es)@,
            old_es == entries_v(es@),
            forall|k: int| 0 <= k < p ==> chars_lt(#[trigger] old_es[k].0, key@),
        decreases es.len() - p,
    {
        p += 1;
    }
    proof { lemma_insert_pos(old_es, key@, p as int); }
    if p < es.len() && crate::text::str_eq(es[p].0.as_str(), key.as_str()) {
        let ghost kv = key@;
        let ghost vv = value@;
        es.set(p, (key, value));
        assert(entries_v(es@) =~= old_es.update(p as int, (kv, vv)));
    } else {
        let ghost kv = key@;
        let ghost vv = value@;
        es.insert(p, (key, value));
        assert(entries_v(es@) =~= old_es.insert(p as int, (kv, vv)));
    }
}

/// `value[key] = v` on a document that is an object; other documents are
/// left as they are.
pub fn set_field(o: Json, key: &str, v: Json) -> (r: Json)
    ensures
        r@ == set_field_v(o@, key@, v@),
{
    match o {
        Json::Object(es) => {
            let mut es = es;
            let ghost before = es@;
            proof { lemma_entries_v(es); }
            obj_insert(&mut es, crate::text::owned(key), v);
            let r = Json::Object(es);
            proof { lemma_entries_v(es); }
            r
        },
        other => other,
    }
}

// ---------------------------------------------------------------------------
// Building documents
// ---------------------------------------------------------------------------

/// An object with the given entries, in the given order.
pub fn object_of(es: Vec<(String, Json)>) -> (r: Json)
    ensures
        r@ == JsonV::Object(entries_v(es@)),
{
    proof { lemma_entries_v(es); }
    Json::Object(es)
}

/// An array with the given elements.
pub fn array_of(a: Vec<Json>) -> (r: Json)
    ensures
        r@ == JsonV::Array(vview(a@)),
{
    proof {
        lemma_array_view(a);
        assert(json_view(Json::Array(a))->Array_0 =~= vview(a@));
    }
    Json::Array(a)
}

/// The model of an array of strings.
pub open spec fn str_array_v(v: Seq<String>) -> JsonV {
    JsonV::Array(Seq::new(v.len(), |i: int| JsonV::Str(v[i]@)))
}

/// An array of strings.
pub fn string_array(v: &Vec<String>) -> (r: Json)
    ensures
        r@ == str_array_v(v@),
{
    let mut a: Vec<Json> = Vec::new();
    let mut i: usize = 0;
    while i < v.len()
        invariant
            i <= v@.len(),
            a@.len() == i,
            forall|k: int| 0 <= k < i ==> (#[trigger] a@[k])@ == JsonV::Str(v@[k]@),
        decreases v@.len() - i,
    {
        a.push(Json::String(v[i].clone()));
        i += 1;
    }
    let r = array_of(a);
    assert(vview(a@) =~= Seq::new(v@.len(), |i: int| JsonV::Str(v@[i]@)));
    r
}

/// An entry of an object.
pub fn entry(key: &str, v: Json) -> (r: (String, Json))
    ensures
        r.0@ == key@,
        r.1 == v,
{
    (crate::text::owned(key), v)
}

} // verus!
