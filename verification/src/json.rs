//! A JSON value held as plain data, read and written with `serde_json`.
//!
//! Numbers keep the text that `serde_json` writes for them; object members are held in order,
//! each key once.
use vstd::prelude::*;
use vstd::utf8::encode_utf8;
use crate::text::{chars_eq, chars_of};

verus! {

#[verifier::external_type_specification]
#[verifier::external_body]
pub struct ExSerdeValue(serde_json::Value);

/// A JSON value.
#[derive(Debug)]
pub enum Json {
    Null,
    Bool(bool),
    Number(String),
    Str(String),
    Array(Vec<Json>),
    Object(Vec<(String, Json)>),
}

/// A JSON value as mathematical data.
pub enum JsonV {
    Null,
    Bool(bool),
    Number(Seq<char>),
    Str(Seq<char>),
    Array(Seq<JsonV>),
    Object(Seq<(Seq<char>, JsonV)>),
}

impl Json {
    pub open spec fn jv(self) -> JsonV
        decreases self,
    {
        match self {
            Json::Null => JsonV::Null,
            Json::Bool(b) => JsonV::Bool(b),
            Json::Number(n) => JsonV::Number(n@),
            Json::Str(s) => JsonV::Str(s@),
            Json::Array(v) => JsonV::Array(jvs(v@)),
            Json::Object(m) => JsonV::Object(members(m@)),
        }
    }
}

/// The values of a sequence of JSON values.
pub open spec fn jvs(v: Seq<Json>) -> Seq<JsonV>
    decreases v,
{
    if v.len() == 0 {
        Seq::empty()
    } else {
        jvs(v.subrange(0, v.len() - 1)).push(v[v.len() - 1].jv())
    }
}

/// The members of an object as values.
pub open spec fn members(m: Seq<(String, Json)>) -> Seq<(Seq<char>, JsonV)>
    decreases m,
{
    if m.len() == 0 {
        Seq::empty()
    } else {
        members(m.subrange(0, m.len() - 1)).push((m[m.len() - 1].0@, m[m.len() - 1].1.jv()))
    }
}

pub proof fn lemma_jv_array(v: Vec<Json>)
    ensures
        Json::Array(v).jv() == JsonV::Array(jvs(v@)),
{
}

pub proof fn lemma_jv_object(m: Vec<(String, Json)>)
    ensures
        Json::Object(m).jv() == JsonV::Object(members(m@)),
{
}

pub proof fn lemma_jvs_push(v: Seq<Json>, x: Json)
    ensures
        jvs(v.push(x)) == jvs(v).push(x.jv()),
{
    assert(v.push(x).subrange(0, v.len() as int) =~= v);
}

pub proof fn lemma_members_push(m: Seq<(String, Json)>, e: (String, Json))
    ensures
        members(m.push(e)) == members(m).push((e.0@, e.1.jv())),
{
    assert(m.push(e).subrange(0, m.len() as int) =~= m);
}

pub proof fn lemma_jvs_len(v: Seq<Json>)
    ensures
        jvs(v).len() == v.len(),
        forall|i: int| 0 <= i < v.len() ==> #[trigger] jvs(v)[i] == v[i].jv(),
    decreases v.len(),
{
    if v.len() > 0 {
        let w = v.subrange(0, v.len() - 1);
        lemma_jvs_len(w);
        assert forall|i: int| 0 <= i < v.len() implies #[trigger] jvs(v)[i] == v[i].jv() by {
            if i < v.len() - 1 {
                assert(jvs(v)[i] == jvs(w)[i]);
                assert(w[i] == v[i]);
            }
        }
    }
}

pub proof fn lemma_members_len(m: Seq<(String, Json)>)
    ensures
        members(m).len() == m.len(),
        forall|i: int| 0 <= i < m.len() ==> #[trigger] members(m)[i] == (m[i].0@, m[i].1.jv()),
    decreases m.len(),
{
    if m.len() > 0 {
        let w = m.subrange(0, m.len() - 1);
        lemma_members_len(w);
        assert forall|i: int| 0 <= i < m.len() implies #[trigger] members(m)[i] == (
            m[i].0@,
            m[i].1.jv(),
        ) by {
            if i < m.len() - 1 {
                assert(members(m)[i] == members(w)[i]);
                assert(w[i] == m[i]);
            }
        }
    }
}

/// Whether some member has the key `k`.
pub open spec fn has_member(m: Seq<(Seq<char>, JsonV)>, k: Seq<char>) -> bool {
    exists|i: int| 0 <= i < m.len() && #[trigger] m[i].0 == k
}

/// Position of the first member with the key `k`.
pub open spec fn member_pos(m: Seq<(Seq<char>, JsonV)>, k: Seq<char>) -> int {
    choose|i: int| 0 <= i < m.len() && m[i].0 == k && forall|j: int| 0 <= j < i ==> m[j].0 != k
}

/// The value of the key `k` in an object (`Value::get`): `None` for other values.
pub open spec fn get(v: JsonV, k: Seq<char>) -> Option<JsonV> {
    match v {
        JsonV::Object(m) => if has_member(m, k) {
            Some(m[member_pos(m, k)].1)
        } else {
            None
        },
        _ => None,
    }
}

/// The text of a string value (`Value::as_str`).
pub open spec fn as_str(v: Option<JsonV>) -> Option<Seq<char>> {
    match v {
        Some(JsonV::Str(s)) => Some(s),
        _ => None,
    }
}

/// The members after setting `k` to `x`: the first member with that key is replaced in place,
/// else the member is added at the end.
pub open spec fn set_member(m: Seq<(Seq<char>, JsonV)>, k: Seq<char>, x: JsonV) -> Seq<
    (Seq<char>, JsonV),
> {
    if has_member(m, k) {
        m.update(member_pos(m, k), (k, x))
    } else {
        m.push((k, x))
    }
}

/// The members without those with the key `k`.
pub open spec fn drop_member(m: Seq<(Seq<char>, JsonV)>, k: Seq<char>) -> Seq<(Seq<char>, JsonV)> {
    m.filter(|e: (Seq<char>, JsonV)| e.0 != k)
}

/// What `serde_json::from_slice::<Value>` reads from the bytes, if they are JSON.
pub uninterp spec fn spec_json_parse(bytes: Seq<u8>) -> Option<JsonV>;

/// What `serde_json::to_string` writes for a value, if it succeeds.
pub uninterp spec fn spec_json_text(v: JsonV) -> Option<Seq<char>>;

/// The library value of a `serde_json::Value`, variant for variant; numbers become their text.
/// Nothing is claimed here: the callers' contracts name what the conversion gives.
#[verifier::external_body]
fn json_of_serde(v: serde_json::Value) -> Json {
    match v {
        serde_json::Value::Null => Json::Null,
        serde_json::Value::Bool(b) => Json::Bool(b),
        serde_json::Value::Number(n) => Json::Number(n.to_string()),
        serde_json::Value::String(s) => Json::Str(s),
        serde_json::Value::Array(a) => Json::Array(a.into_iter().map(json_of_serde).collect()),
        serde_json::Value::Object(o) => Json::Object(o.into_iter().map(|(k, x)| (k, json_of_serde(x))).collect()),
    }
}

/// The `serde_json::Value` of a library value, variant for variant; a number's text is read
/// back with `serde_json`. Nothing is claimed here: the callers' contracts name what the
/// conversion gives.
#[verifier::external_body]
fn serde_of_json(j: &Json) -> serde_json::Value {
    match j {
        Json::Null => serde_json::Value::Null,
        Json::Bool(b) => serde_json::Value::Bool(*b),
        Json::Number(n) => serde_json::from_str::<serde_json::Number>(n).map(serde_json::Value::Number).unwrap_or(serde_json::Value::Null),
        Json::Str(s) => serde_json::Value::String(s.clone()),
        Json::Array(a) => serde_json::Value::Array(a.iter().map(serde_of_json).collect()),
        Json::Object(o) => serde_json::Value::Object(o.iter().map(|(k, x)| (k.clone(), serde_of_json(x))).collect()),
    }
}

/// Parses JSON with `serde_json::from_slice::<serde_json::Value>`. Claimed: the result depends on
/// the bytes alone.
#[verifier::external_body]
pub(crate) fn parse_json(bytes: &[u8]) -> (r: Option<Json>)
    ensures
        match r {
            Some(j) => spec_json_parse(bytes@) == Some(j.jv()),
            None => spec_json_parse(bytes@) is None,
        },
{
    serde_json::from_slice::<serde_json::Value>(bytes).ok().map(json_of_serde)
}

/// Writes JSON with `serde_json::to_string`. Claimed: the result depends on the value alone, and
/// the compact text is never empty and holds no line break (the writer puts no whitespace
/// between tokens and escapes control characters inside strings).
#[verifier::external_body]
pub(crate) fn json_text(j: &Json) -> (r: Option<String>)
    ensures
        match r {
            Some(t) => spec_json_text(j.jv()) == Some(t@),
            None => spec_json_text(j.jv()) is None,
        },
        r matches Some(t) ==> t@.len() > 0 && !t@.contains('\n') && !t@.contains('\r'),
{
    serde_json::to_string(&serde_of_json(j)).ok()
}

/// The UTF-8 bytes of written JSON (`serde_json::to_vec` writes the same bytes as `to_string`).
pub fn json_bytes(j: &Json) -> (r: Option<Vec<u8>>)
    ensures
        match spec_json_text(j.jv()) {
            Some(t) => r matches Some(b) && b@ == encode_utf8(t),
            None => r is None,
        },
{
    match json_text(j) {
        Some(t) => {
            let mut out: Vec<u8> = Vec::new();
            crate::text::push_bytes(&mut out, t.as_str().as_bytes());
            Some(out)
        },
        None => None,
    }
}

/// The first member with the key `key`, as its position.
pub fn member_index(m: &Vec<(String, Json)>, key: &str) -> (r: Option<usize>)
    ensures
        r is Some <==> has_member(members(m@), key@),
        r matches Some(i) ==> i < m@.len() && i == member_pos(members(m@), key@),
{
    let k = chars_of(key);
    let mut i: usize = 0;
    proof {
        lemma_members_len(m@);
    }
    while i < m.len()
        invariant
            i <= m@.len(),
            k@ == key@,
            members(m@).len() == m@.len(),
            forall|j: int| 0 <= j < m@.len() ==> #[trigger] members(m@)[j] == (m@[j].0@, m@[j].1.jv()),
            forall|j: int| 0 <= j < i ==> members(m@)[j].0 != key@,
        decreases m@.len() - i,
    {
        let c = chars_of(m[i].0.as_str());
        if chars_eq(c.as_slice(), k.as_slice()) {
            proof {
                let ms = members(m@);
                let ii = i as int;
                assert(ms[ii].0 == key@);
                let p = member_pos(ms, key@);
                if p < ii {
                } else if p > ii {
                }
            }
            return Some(i);
        }
        i = i + 1;
    }
    None
}

impl Json {
    /// A copy of the value.
    pub fn deep_clone(&self) -> (r: Json)
        ensures
            r.jv() == self.jv(),
        decreases self,
    {
        match self {
            Json::Null => Json::Null,
            Json::Bool(b) => Json::Bool(*b),
            Json::Number(n) => Json::Number(n.clone()),
            Json::Str(s) => Json::Str(s.clone()),
            Json::Array(v) => {
                let mut out: Vec<Json> = Vec::new();
                let mut i: usize = 0;
                proof {
                    lemma_jvs_len(v@);
                }
                while i < v.len()
                    invariant
                        i <= v@.len(),
                        *self == Json::Array(*v),
                        jvs(v@).len() == v@.len(),
                        forall|k: int| 0 <= k < v@.len() ==> #[trigger] jvs(v@)[k] == v@[k].jv(),
                        jvs(out@) == jvs(v@).take(i as int),
                    decreases v@.len() - i,
                {
                    proof {
                        assert(decreases_to!(*self => (*self)->Array_0));
                        assert(decreases_to!((*self)->Array_0 => (*self)->Array_0@));
                        assert(decreases_to!((*self)->Array_0@ => (*self)->Array_0@[i as int]));
                    }
                    let c = v[i].deep_clone();
                    let ghost before = out@;
                    let ghost cj = c.jv();
                    proof {
                        lemma_jvs_push(before, c);
                    }
                    out.push(c);
                    assert(jvs(out@) =~= jvs(before).push(cj));
                    i = i + 1;
                    assert(jvs(out@) =~= jvs(v@).take(i as int));
                }
                proof {
                    assert(jvs(v@).take(i as int) =~= jvs(v@));
                    lemma_jv_array(out);
                    lemma_jv_array(*v);
                }
                Json::Array(out)
            },
            Json::Object(m) => {
                let mut out: Vec<(String, Json)> = Vec::new();
                let mut i: usize = 0;
                proof {
                    lemma_members_len(m@);
                }
                while i < m.len()
                    invariant
                        i <= m@.len(),
                        *self == Json::Object(*m),
                        members(m@).len() == m@.len(),
                        forall|k: int| 0 <= k < m@.len() ==> #[trigger] members(m@)[k] == (m@[k].0@, m@[k].1.jv()),
                        members(out@) == members(m@).take(i as int),
                    decreases m@.len() - i,
                {
                    let k = m[i].0.clone();
                    proof {
                        assert(decreases_to!(*self => (*self)->Object_0));
                        assert(decreases_to!((*self)->Object_0 => (*self)->Object_0@));
                        assert(decreases_to!((*self)->Object_0@ => (*self)->Object_0@[i as int]));
                        assert(decreases_to!((*self)->Object_0@[i as int] => (*self)->Object_0@[i as int].1));
                    }
                    let c = m[i].1.deep_clone();
                    let ghost before = out@;
                    let ghost kv = k@;
                    let ghost cv = c.jv();
                    proof {
                        lemma_members_push(before, (k, c));
                    }
                    out.push((k, c));
                    assert(members(out@) =~= members(before).push((kv, cv)));
                    i = i + 1;
                    assert(members(out@) =~= members(m@).take(i as int));
                }
                proof {
                    assert(members(m@).take(i as int) =~= members(m@));
                    lemma_jv_object(out);
                    lemma_jv_object(*m);
                }
                Json::Object(out)
            },
        }
    }

    /// The value of `key` when this is an object.
    pub fn get(&self, key: &str) -> (r: Option<&Json>)
        ensures
            match r {
                Some(x) => get(self.jv(), key@) == Some(x.jv()),
                None => get(self.jv(), key@) is None,
            },
    {
        match self {
            Json::Object(m) => {
                proof {
                    lemma_jv_object(*m);
                    lemma_members_len(m@);
                }
                match member_index(m, key) {
                    Some(i) => Some(&m[i].1),
                    None => None,
                }
            },
            _ => None,
        }
    }

    /// The text when this is a string.
    pub fn as_str(&self) -> (r: Option<&str>)
        ensures
            match r {
                Some(s) => self.jv() == JsonV::Str(s@),
                None => !(self.jv() is Str),
            },
    {
        match self {
            Json::Str(s) => Some(s.as_str()),
            _ => None,
        }
    }

    pub fn is_object(&self) -> (r: bool)
        ensures
            r == self.jv() is Object,
    {
        match self {
            Json::Object(_) => true,
            _ => false,
        }
    }
}

/// Sets `key` to `value` in the members (`Map::insert`).
pub fn set_member_exec(m: &mut Vec<(String, Json)>, key: String, value: Json)
    ensures
        members(final(m)@) == set_member(members(old(m)@), key@, value.jv()),
{
    let ghost kv = key@;
    let ghost vv = value.jv();
    match member_index(m, key.as_str()) {
        Some(i) => {
            let ghost before = m@;
            m.set(i, (key, value));
            proof {
                lemma_members_len(before);
                lemma_members_len(m@);
            }
            assert(members(m@) =~= members(before).update(i as int, (kv, vv)));
        },
        None => {
            let ghost before = m@;
            proof {
                lemma_members_push(before, (key, value));
            }
            m.push((key, value));
        },
    }
}

/// Drops `key` from the members (`Map::remove`).
pub fn remove_member(m: &mut Vec<(String, Json)>, key: &str)
    ensures
        members(final(m)@) == drop_member(members(old(m)@), key@),
{
    let k = chars_of(key);
    let mut kept: Vec<(String, Json)> = Vec::new();
    let mut rest: Vec<(String, Json)> = Vec::new();
    std::mem::swap(m, &mut rest);
    let ghost orig = rest@;
    let n = rest.len();
    let mut i: usize = 0;
    while rest.len() > 0
        invariant
            i + rest@.len() == n,
            n == orig.len(),
            k@ == key@,
            rest@ == orig.subrange(i as int, n as int),
            members(kept@) == drop_member(members(orig.take(i as int)), key@),
        decreases rest@.len(),
    {
        let entry = rest.remove(0);
        proof {
            reveal(Seq::filter);
            assert(orig.take(i + 1) =~= orig.take(i as int).push(orig[i as int]));
            lemma_members_push(orig.take(i as int), orig[i as int]);
            let o = members(orig.take(i + 1));
            assert(o.drop_last() =~= members(orig.take(i as int)));
            assert(o.last() == (orig[i as int].0@, orig[i as int].1.jv()));
        }
        let ghost before = kept@;
        let c = chars_of(entry.0.as_str());
        if !chars_eq(c.as_slice(), k.as_slice()) {
            proof {
                lemma_members_push(before, entry);
            }
            kept.push(entry);
        }
        assert(rest@ =~= orig.subrange(i + 1, n as int));
        i = i + 1;
    }
    assert(orig.take(i as int) =~= orig);
    *m = kept;
}

fn text_same(a: &String, b: &String) -> (r: bool)
    ensures
        r == (a@ == b@),
{
    let x = chars_of(a.as_str());
    let y = chars_of(b.as_str());
    chars_eq(x.as_slice(), y.as_slice())
}

impl Json {
    /// Whether two values are the same JSON.
    pub fn same_as(&self, other: &Json) -> (r: bool)
        ensures
            r == (self.jv() == other.jv()),
        decreases self,
    {
        match (self, other) {
            (Json::Null, Json::Null) => true,
            (Json::Bool(a), Json::Bool(b)) => *a == *b,
            (Json::Number(a), Json::Number(b)) => text_same(a, b),
            (Json::Str(a), Json::Str(b)) => text_same(a, b),
            (Json::Array(a), Json::Array(b)) => {
                proof {
                    lemma_jvs_len(a@);
                    lemma_jvs_len(b@);
                }
                if a.len() != b.len() {
                    return false;
                }
                let mut i: usize = 0;
                while i < a.len()
                    invariant
                        i <= a@.len(),
                        a@.len() == b@.len(),
                        *self == Json::Array(*a),
                        *other == Json::Array(*b),
                        jvs(a@).len() == a@.len(),
                        jvs(b@).len() == b@.len(),
                        forall|k: int| 0 <= k < a@.len() ==> #[trigger] jvs(a@)[k] == a@[k].jv(),
                        forall|k: int| 0 <= k < b@.len() ==> #[trigger] jvs(b@)[k] == b@[k].jv(),
                        forall|k: int| 0 <= k < i ==> a@[k].jv() == b@[k].jv(),
                    decreases a@.len() - i,
                {
                    proof {
                        assert(decreases_to!(*self => (*self)->Array_0));
                        assert(decreases_to!((*self)->Array_0 => (*self)->Array_0@));
                        assert(decreases_to!((*self)->Array_0@ => (*self)->Array_0@[i as int]));
                    }
                    if !a[i].same_as(&b[i]) {
                        assert(jvs(a@)[i as int] != jvs(b@)[i as int]);
                        return false;
                    }
                    i = i + 1;
                }
                assert(jvs(a@) =~= jvs(b@));
                true
            },
            (Json::Object(a), Json::Object(b)) => {
                proof {
                    lemma_members_len(a@);
                    lemma_members_len(b@);
                }
                if a.len() != b.len() {
                    return false;
                }
                let mut i: usize = 0;
                while i < a.len()
                    invariant
                        i <= a@.len(),
                        a@.len() == b@.len(),
                        *self == Json::Object(*a),
                        *other == Json::Object(*b),
                        members(a@).len() == a@.len(),
                        members(b@).len() == b@.len(),
                        forall|k: int| 0 <= k < a@.len() ==> #[trigger] members(a@)[k] == (a@[k].0@, a@[k].1.jv()),
                        forall|k: int| 0 <= k < b@.len() ==> #[trigger] members(b@)[k] == (b@[k].0@, b@[k].1.jv()),
                        forall|k: int| 0 <= k < i ==> members(a@)[k] == members(b@)[k],
                    decreases a@.len() - i,
                {
                    proof {
                        assert(decreases_to!(*self => (*self)->Object_0));
                        assert(decreases_to!((*self)->Object_0 => (*self)->Object_0@));
                        assert(decreases_to!((*self)->Object_0@ => (*self)->Object_0@[i as int]));
                        assert(decreases_to!((*self)->Object_0@[i as int] => (*self)->Object_0@[i as int].1));
                    }
                    if !text_same(&a[i].0, &b[i].0) {
                        assert(members(a@)[i as int] != members(b@)[i as int]);
                        return false;
                    }
                    if !a[i].1.same_as(&b[i].1) {
                        assert(members(a@)[i as int] != members(b@)[i as int]);
                        return false;
                    }
                    i = i + 1;
                }
                assert(members(a@) =~= members(b@));
                true
            },
            _ => false,
        }
    }
}

/// A key that occurs has a first occurrence.
proof fn lemma_first_member(m: Seq<(Seq<char>, JsonV)>, k: Seq<char>, i: int)
    requires
        0 <= i < m.len(),
        m[i].0 == k,
    ensures
        exists|p: int| 0 <= p < m.len() && m[p].0 == k && forall|j: int| 0 <= j < p ==> m[j].0 != k,
    decreases i,
{
    if exists|j: int| 0 <= j < i && m[j].0 == k {
        let j = choose|j: int| 0 <= j < i && m[j].0 == k;
        lemma_first_member(m, k, j);
    }
}

/// The position of a key that occurs is that of its first occurrence.
pub proof fn lemma_member_pos(m: Seq<(Seq<char>, JsonV)>, k: Seq<char>)
    requires
        has_member(m, k),
    ensures
        0 <= member_pos(m, k) < m.len(),
        m[member_pos(m, k)].0 == k,
        forall|j: int| 0 <= j < member_pos(m, k) ==> m[j].0 != k,
{
    let i = choose|i: int| 0 <= i < m.len() && #[trigger] m[i].0 == k;
    lemma_first_member(m, k, i);
}

/// Dropping a key leaves no member with it.
pub proof fn lemma_drop_member_absent(m: Seq<(Seq<char>, JsonV)>, k: Seq<char>)
    ensures
        !has_member(drop_member(m, k), k),
    decreases m.len(),
{
    reveal(Seq::filter);
    if m.len() > 0 {
        let d = m.drop_last();
        lemma_drop_member_absent(d, k);
        assert(drop_member(m, k) == if m.last().0 != k {
            drop_member(d, k).push(m.last())
        } else {
            drop_member(d, k)
        });
        if m.last().0 != k {
            let dd = drop_member(d, k);
            assert forall|i: int| 0 <= i < dd.push(m.last()).len() implies #[trigger] dd.push(
                m.last(),
            )[i].0 != k by {
                if i < dd.len() {
                    assert(dd.push(m.last())[i] == dd[i]);
                }
            }
        }
    }
}

/// Dropping a key brings no key in.
pub proof fn lemma_drop_member_keeps_absent(m: Seq<(Seq<char>, JsonV)>, k2: Seq<char>, k: Seq<char>)
    requires
        !has_member(m, k),
    ensures
        !has_member(drop_member(m, k2), k),
    decreases m.len(),
{
    reveal(Seq::filter);
    if m.len() > 0 {
        let d = m.drop_last();
        assert(!has_member(d, k)) by {
            if has_member(d, k) {
                let i = choose|i: int| 0 <= i < d.len() && #[trigger] d[i].0 == k;
                assert(m[i].0 == k);
            }
        }
        lemma_drop_member_keeps_absent(d, k2, k);
        assert(m[m.len() - 1].0 != k);
        assert(drop_member(m, k2) == if m.last().0 != k2 {
            drop_member(d, k2).push(m.last())
        } else {
            drop_member(d, k2)
        });
        if m.last().0 != k2 {
            let dd = drop_member(d, k2);
            assert forall|i: int| 0 <= i < dd.push(m.last()).len() implies #[trigger] dd.push(
                m.last(),
            )[i].0 != k by {
                if i < dd.len() {
                    assert(dd.push(m.last())[i] == dd[i]);
                }
            }
        }
    }
}

/// Dropping a key keeps the members with other keys.
pub proof fn lemma_drop_member_keeps_other(m: Seq<(Seq<char>, JsonV)>, k2: Seq<char>, k: Seq<char>)
    requires
        has_member(m, k),
        k != k2,
    ensures
        has_member(drop_member(m, k2), k),
{
    broadcast use vstd::seq_lib::group_filter_ensures;
    let i = choose|i: int| 0 <= i < m.len() && #[trigger] m[i].0 == k;
    assert(drop_member(m, k2).contains(m[i]));
    let j = choose|j: int| 0 <= j < drop_member(m, k2).len() && drop_member(m, k2)[j] == m[i];
    assert(drop_member(m, k2)[j].0 == k);
}

/// Setting a key brings no other key in.
pub proof fn lemma_set_member_keeps_absent(
    m: Seq<(Seq<char>, JsonV)>,
    k: Seq<char>,
    x: JsonV,
    q: Seq<char>,
)
    requires
        !has_member(m, q),
        q != k,
    ensures
        !has_member(set_member(m, k, x), q),
{
    if has_member(m, k) {
        lemma_member_pos(m, k);
        let u = set_member(m, k, x);
        assert forall|i: int| 0 <= i < u.len() implies #[trigger] u[i].0 != q by {
            if i != member_pos(m, k) {
                assert(u[i] == m[i]);
            }
        }
    } else {
        let u = set_member(m, k, x);
        assert forall|i: int| 0 <= i < u.len() implies #[trigger] u[i].0 != q by {
            if i < m.len() {
                assert(u[i] == m[i]);
            }
        }
    }
}

} // verus!
