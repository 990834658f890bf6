use vstd::prelude::*;
use crate::number::Number;

verus! {

broadcast use vstd::std_specs::vec::group_vec_axioms, vstd::seq::group_seq_axioms;

/// A JSON value: the records that expressions are matched against, and the tree form of
/// cql2-json. Object members keep their order.
#[derive(Debug)]
pub enum Json {
    Null,
    Bool(bool),
    Number(Number),
    Str(String),
    Array(Vec<Json>),
    Object(Vec<(String, Json)>),
    /// JSON text kept as it was written: the GeoJSON that geozero writes for a WKT geometry.
    Raw(String),
}

/// The mathematical form of a JSON value.
pub enum JsonV {
    Null,
    Bool(bool),
    Number(Number),
    Str(Seq<char>),
    Array(Seq<JsonV>),
    Object(Seq<(Seq<char>, JsonV)>),
    Raw(Seq<char>),
}

/// The view of a JSON value.
pub open spec fn json_view(j: Json) -> JsonV
    decreases j,
{
    match j {
        Json::Null => JsonV::Null,
        Json::Bool(b) => JsonV::Bool(b),
        Json::Number(n) => JsonV::Number(n),
        Json::Str(s) => JsonV::Str(s@),
        Json::Array(v) => JsonV::Array(json_views(v@)),
        Json::Object(m) => JsonV::Object(member_views(m@)),
        Json::Raw(t) => JsonV::Raw(t@),
    }
}

/// The views of a sequence of JSON values.
pub open spec fn json_views(js: Seq<Json>) -> Seq<JsonV>
    decreases js,
{
    if js.len() == 0 {
        seq![]
    } else {
        json_views(js.subrange(0, js.len() - 1)).push(json_view(js[js.len() - 1]))
    }
}

/// The views of the members of an object.
pub open spec fn member_views(ms: Seq<(String, Json)>) -> Seq<(Seq<char>, JsonV)>
    decreases ms,
{
    if ms.len() == 0 {
        seq![]
    } else {
        let last = ms[ms.len() - 1];
        member_views(ms.subrange(0, ms.len() - 1)).push((last.0@, json_view(last.1)))
    }
}

impl View for Json {
    type V = JsonV;

    open spec fn view(&self) -> JsonV {
        json_view(*self)
    }
}

/// `json_views` has one view per value, in order.
pub proof fn lemma_json_views(js: Seq<Json>)
    ensures
        json_views(js).len() == js.len(),
        forall|i: int| 0 <= i < js.len() ==> #[trigger] json_views(js)[i] == json_view(js[i]),
    decreases js.len(),
{
    if js.len() > 0 {
        let front = js.subrange(0, js.len() - 1);
        lemma_json_views(front);
        assert forall|i: int| 0 <= i < js.len() implies #[trigger] json_views(js)[i] == json_view(
            js[i],
        ) by {
            if i < js.len() - 1 {
                assert(front[i] == js[i]);
            }
        }
    }
}

/// `member_views` has one view per member, in order.
pub proof fn lemma_member_views(ms: Seq<(String, Json)>)
    ensures
        member_views(ms).len() == ms.len(),
        forall|i: int|
            0 <= i < ms.len() ==> #[trigger] member_views(ms)[i] == (ms[i].0@, json_view(ms[i].1)),
    decreases ms.len(),
{
    if ms.len() > 0 {
        let front = ms.subrange(0, ms.len() - 1);
        lemma_member_views(front);
        assert forall|i: int| 0 <= i < ms.len() implies #[trigger] member_views(ms)[i] == (
            ms[i].0@,
            json_view(ms[i].1),
        ) by {
            if i < ms.len() - 1 {
                assert(front[i] == ms[i]);
            }
        }
    }
}

impl Json {
    /// A copy of this value.
    pub fn copy(&self) -> (r: Json)
        ensures
            r@ == self@,
        decreases *self, 1nat,
    {
        match self {
            Json::Null => Json::Null,
            Json::Bool(b) => Json::Bool(*b),
            Json::Number(n) => Json::Number(*n),
            Json::Str(s) => Json::Str(s.clone()),
            Json::Array(v) => Json::Array(copy_values(v)),
            Json::Object(m) => Json::Object(copy_members(m)),
            Json::Raw(t) => Json::Raw(t.clone()),
        }
    }
}

/// Copies of JSON values.
pub fn copy_values(v: &Vec<Json>) -> (r: Vec<Json>)
    ensures
        json_views(r@) == json_views(v@),
    decreases v@, 0nat,
{
    let mut out: Vec<Json> = Vec::new();
    let mut i: usize = 0;
    while i < v.len()
        invariant
            i <= v.len(),
            json_views(out@) == json_views(v@.subrange(0, i as int)),
            out.len() == i,
        decreases v.len() - i,
    {
        proof {
            assert(decreases_to!(v@ => v@[i as int]));
        }
        let c = v[i].copy();
        let ghost before = out@;
        out.push(c);
        proof {
            assert(out@.subrange(0, i as int) =~= before);
            let sub = v@.subrange(0, i + 1);
            assert(sub.subrange(0, i as int) =~= v@.subrange(0, i as int));
        }
        i = i + 1;
    }
    assert(v@.subrange(0, v.len() as int) =~= v@);
    out
}

/// Copies of object members.
pub fn copy_members(m: &Vec<(String, Json)>) -> (r: Vec<(String, Json)>)
    ensures
        member_views(r@) == member_views(m@),
    decreases m@, 0nat,
{
    let mut out: Vec<(String, Json)> = Vec::new();
    let mut i: usize = 0;
    while i < m.len()
        invariant
            i <= m.len(),
            member_views(out@) == member_views(m@.subrange(0, i as int)),
            out.len() == i,
        decreases m.len() - i,
    {
        proof {
            assert(decreases_to!(m@ => m@[i as int]));
            assert(decreases_to!(m@[i as int] => m@[i as int].1));
        }
        let c = m[i].1.copy();
        let k = m[i].0.clone();
        let ghost before = out@;
        out.push((k, c));
        proof {
            assert(out@.subrange(0, i as int) =~= before);
            let sub = m@.subrange(0, i + 1);
            assert(sub.subrange(0, i as int) =~= m@.subrange(0, i as int));
        }
        i = i + 1;
    }
    assert(m@.subrange(0, m.len() as int) =~= m@);
    out
}

} // verus!
