//! The JSON value model used for message bodies.
//!
//! A value holds strings as their raw UTF-8 bytes; objects keep their
//! members in insertion order.  A number is a signed 64-bit integer, or,
//! when the literal does not fit one — a fraction, an exponent, or an
//! integer outside the 64-bit range — the literal's own bytes, kept
//! verbatim so the value passes through unchanged.

use vstd::prelude::*;

verus! {

use crate::bytes_util::bytes_eq;

/// An executable JSON value.
#[derive(Debug, PartialEq, Eq)]
pub enum Json {
    Null,
    Bool(bool),
    Int(i64),
    Num(Vec<u8>),
    Str(Vec<u8>),
    Arr(Vec<Json>),
    Obj(Vec<(Vec<u8>, Json)>),
}

/// The mathematical model of a JSON value.
pub enum JsonData {
    Null,
    Bool(bool),
    Int(int),
    Num(Seq<u8>),
    Str(Seq<u8>),
    Arr(Seq<JsonData>),
    Obj(Seq<(Seq<u8>, JsonData)>),
}

/// The model of an executable JSON value.
pub open spec fn json_view(j: Json) -> JsonData
    decreases j,
{
    match j {
        Json::Null => JsonData::Null,
        Json::Bool(b) => JsonData::Bool(b),
        Json::Int(i) => JsonData::Int(i as int),
        Json::Num(n) => JsonData::Num(n@),
        Json::Str(s) => JsonData::Str(s@),
        Json::Arr(es) => JsonData::Arr(jsons_view(es@)),
        Json::Obj(ps) => JsonData::Obj(pairs_view(ps@)),
    }
}

/// The models of a sequence of values.
pub open spec fn jsons_view(es: Seq<Json>) -> Seq<JsonData>
    decreases es,
{
    if es.len() == 0 {
        Seq::empty()
    } else {
        seq![json_view(es[0])] + jsons_view(es.subrange(1, es.len() as int))
    }
}

/// The models of a sequence of object members.
pub open spec fn pairs_view(ps: Seq<(Vec<u8>, Json)>) -> Seq<(Seq<u8>, JsonData)>
    decreases ps,
{
    if ps.len() == 0 {
        Seq::empty()
    } else {
        seq![(ps[0].0@, json_view(ps[0].1))] + pairs_view(ps.subrange(1, ps.len() as int))
    }
}

/// Element `i` of a viewed sequence is the view of element `i`.
pub proof fn lemma_jsons_view_index(es: Seq<Json>)
    ensures
        jsons_view(es).len() == es.len(),
        forall|i: int| 0 <= i < es.len() ==> #[trigger] jsons_view(es)[i] == json_view(es[i]),
    decreases es.len(),
{
    if es.len() > 0 {
        lemma_jsons_view_index(es.subrange(1, es.len() as int));
    }
}

/// Member `i` of a viewed member sequence is the view of member `i`.
pub proof fn lemma_pairs_view_index(ps: Seq<(Vec<u8>, Json)>)
    ensures
        pairs_view(ps).len() == ps.len(),
        forall|i: int| 0 <= i < ps.len() ==> #[trigger] pairs_view(ps)[i] == (
            ps[i].0@,
            json_view(ps[i].1),
        ),
    decreases ps.len(),
{
    if ps.len() > 0 {
        lemma_pairs_view_index(ps.subrange(1, ps.len() as int));
    }
}

/// Well-formedness of a model value: every integer fits the signed
/// 64-bit range the executable model holds, and every kept number
/// literal is a genuine number token that the parser reads back whole
/// and does not turn into an integer.
pub open spec fn json_wf(j: JsonData) -> bool
    decreases j,
{
    match j {
        JsonData::Null => true,
        JsonData::Bool(_) => true,
        JsonData::Int(i) => i64::MIN as int <= i <= i64::MAX as int,
        JsonData::Num(raw) => crate::json_parse::num_token_wf(raw),
        JsonData::Str(_) => true,
        JsonData::Arr(es) => jsons_wf(es),
        JsonData::Obj(ps) => pairs_wf(ps),
    }
}

/// Well-formedness of each value in a sequence.
pub open spec fn jsons_wf(es: Seq<JsonData>) -> bool
    decreases es,
{
    if es.len() == 0 {
        true
    } else {
        json_wf(es[0]) && jsons_wf(es.subrange(1, es.len() as int))
    }
}

/// Well-formedness of each member value in a sequence.
pub open spec fn pairs_wf(ps: Seq<(Seq<u8>, JsonData)>) -> bool
    decreases ps,
{
    if ps.len() == 0 {
        true
    } else {
        json_wf(ps[0].1) && pairs_wf(ps.subrange(1, ps.len() as int))
    }
}

/// A well-formed member sequence is well-formed member by member.
pub proof fn lemma_pairs_wf_index(ps: Seq<(Seq<u8>, JsonData)>)
    ensures
        pairs_wf(ps) <==> (forall|k: int| 0 <= k < ps.len() ==> json_wf(#[trigger] ps[k].1)),
    decreases ps.len(),
{
    if ps.len() > 0 {
        lemma_pairs_wf_index(ps.subrange(1, ps.len() as int));
        assert(forall|k: int|
            1 <= k < ps.len() ==> ps.subrange(1, ps.len() as int)[k - 1] == #[trigger] ps[k]);
    }
}

/// Viewing distributes over appending one value.
pub proof fn lemma_jsons_view_snoc(es: Seq<Json>, v: Json)
    ensures
        jsons_view(es.push(v)) == jsons_view(es) + seq![json_view(v)],
{
    lemma_jsons_view_index(es.push(v));
    lemma_jsons_view_index(es);
    assert(jsons_view(es.push(v)) =~= jsons_view(es) + seq![json_view(v)]);
}

/// Viewing distributes over appending one member.
pub proof fn lemma_pairs_view_snoc(ps: Seq<(Vec<u8>, Json)>, k: Vec<u8>, v: Json)
    ensures
        pairs_view(ps.push((k, v))) == pairs_view(ps) + seq![(k@, json_view(v))],
{
    lemma_pairs_view_index(ps.push((k, v)));
    lemma_pairs_view_index(ps);
    assert(pairs_view(ps.push((k, v))) =~= pairs_view(ps) + seq![(k@, json_view(v))]);
}

impl View for Json {
    type V = JsonData;

    open spec fn view(&self) -> JsonData {
        json_view(*self)
    }
}

/// Looks a key up among an object's members; the first match wins.
pub open spec fn spec_obj_get(ps: Seq<(Seq<u8>, JsonData)>, key: Seq<u8>) -> Option<JsonData>
    decreases ps.len(),
{
    if ps.len() == 0 {
        None
    } else if ps[0].0 == key {
        Some(ps[0].1)
    } else {
        spec_obj_get(ps.skip(1), key)
    }
}

impl JsonData {
    /// The value under `key` if this value is an object holding that key.
    pub open spec fn spec_get(self, key: Seq<u8>) -> Option<JsonData> {
        match self {
            JsonData::Obj(ps) => spec_obj_get(ps, key),
            _ => None,
        }
    }
}

impl Json {
    /// Looks `key` up in an object value; `None` for any other shape.
    pub fn get<'a>(&'a self, key: &Vec<u8>) -> (r: Option<&'a Json>)
        ensures
            match r {
                Some(v) => self@.spec_get(key@) == Some(v@),
                None => self@.spec_get(key@) is None,
            },
    {
        match self {
            Json::Obj(ps) => {
                proof {
                    lemma_pairs_view_index(ps@);
                    assert(self@->Obj_0.skip(0) =~= self@->Obj_0);
                }
                let mut i: usize = 0;
                while i < ps.len()
                    invariant
                        i <= ps.len(),
                        self@ matches JsonData::Obj(q) && q == pairs_view(ps@),
                        pairs_view(ps@).len() == ps@.len(),
                        forall|k: int| 0 <= k < ps@.len() ==> #[trigger] pairs_view(ps@)[k] == (
                            ps@[k].0@,
                            json_view(ps@[k].1),
                        ),
                        spec_obj_get(pairs_view(ps@), key@) == spec_obj_get(
                            pairs_view(ps@).skip(i as int),
                            key@,
                        ),
                    decreases ps.len() - i,
                {
                    assert(pairs_view(ps@).skip(i as int)[0] == pairs_view(ps@)[i as int]);
                    if bytes_eq(&ps[i].0, key) {
                        return Some(&ps[i].1);
                    }
                    assert(pairs_view(ps@).skip(i as int).skip(1) =~= pairs_view(ps@).skip(
                        i + 1,
                    ));
                    i += 1;
                }
                assert(pairs_view(ps@).skip(i as int).len() == 0);
                None
            },
            _ => None,
        }
    }
}

/// A structurally equal copy of a byte vector.
pub fn bytes_clone(s: &Vec<u8>) -> (r: Vec<u8>)
    ensures
        r@ == s@,
{
    let mut t: Vec<u8> = Vec::new();
    let mut i: usize = 0;
    while i < s.len()
        invariant
            i <= s.len(),
            t@ == s@.take(i as int),
        decreases s.len() - i,
    {
        t.push(s[i]);
        assert(t@ =~= s@.take(i + 1));
        i += 1;
    }
    assert(t@ =~= s@);
    t
}

/// A structurally equal copy of a JSON value.
pub fn json_clone(j: &Json) -> (r: Json)
    ensures
        r@ == j@,
    decreases j,
{
    broadcast use vstd::std_specs::vec::axiom_vec_decreases_to_view;

    match j {
        Json::Null => Json::Null,
        Json::Bool(b) => Json::Bool(*b),
        Json::Int(i) => Json::Int(*i),
        Json::Num(n) => Json::Num(bytes_clone(n)),
        Json::Str(s) => Json::Str(bytes_clone(s)),
        Json::Arr(es) => {
            proof {
                lemma_jsons_view_index(es@);
            }
            let mut out: Vec<Json> = Vec::new();
            let mut i: usize = 0;
            while i < es.len()
                invariant
                    i <= es.len(),
                    out@.len() == i,
                    *j is Arr,
                    *es == (*j)->Arr_0,
                    forall|k: int| 0 <= k < i ==> #[trigger] json_view(out@[k]) == json_view(
                        es@[k],
                    ),
                decreases es.len() - i,
            {
                proof {
                    assert(decreases_to!(*j => (*j)->Arr_0));
                    assert(decreases_to!((*j)->Arr_0 => es@));
                    assert(decreases_to!(es@ => es@[i as int]));
                }
                let c = json_clone(&es[i]);
                out.push(c);
                i += 1;
            }
            let r = Json::Arr(out);
            proof {
                lemma_jsons_view_index(out@);
                assert(jsons_view(out@) =~= jsons_view(es@));
            }
            r
        },
        Json::Obj(ps) => {
            proof {
                lemma_pairs_view_index(ps@);
            }
            let mut out: Vec<(Vec<u8>, Json)> = Vec::new();
            let mut i: usize = 0;
            while i < ps.len()
                invariant
                    i <= ps.len(),
                    out@.len() == i,
                    *j is Obj,
                    *ps == (*j)->Obj_0,
                    forall|k: int| 0 <= k < i ==> #[trigger] out@[k].0@ == ps@[k].0@
                        && json_view(out@[k].1) == json_view(ps@[k].1),
                decreases ps.len() - i,
            {
                let kb = bytes_clone(&ps[i].0);
                proof {
                    assert(decreases_to!(*j => (*j)->Obj_0));
                    assert(decreases_to!((*j)->Obj_0 => ps@));
                    assert(decreases_to!(ps@ => ps@[i as int]));
                    assert(decreases_to!(ps@[i as int] => ps@[i as int].1));
                }
                let c = json_clone(&ps[i].1);
                out.push((kb, c));
                i += 1;
            }
            let r = Json::Obj(out);
            proof {
                lemma_pairs_view_index(out@);
                assert(pairs_view(out@) =~= pairs_view(ps@));
            }
            r
        },
    }
}

/// The members of an object with every member named `key` left out.
pub open spec fn obj_remove(ps: Seq<(Seq<u8>, JsonData)>, key: Seq<u8>) -> Seq<(Seq<u8>, JsonData)>
    decreases ps.len(),
{
    if ps.len() == 0 {
        Seq::empty()
    } else if ps[0].0 == key {
        obj_remove(ps.skip(1), key)
    } else {
        seq![ps[0]] + obj_remove(ps.skip(1), key)
    }
}

/// Removal distributes over appending one member.
pub proof fn lemma_obj_remove_push(ps: Seq<(Seq<u8>, JsonData)>, x: (Seq<u8>, JsonData), key: Seq<u8>)
    ensures
        obj_remove(ps.push(x), key) == if x.0 == key {
            obj_remove(ps, key)
        } else {
            obj_remove(ps, key).push(x)
        },
    decreases ps.len(),
{
    if ps.len() == 0 {
        assert(ps.push(x)[0] == x);
        assert(ps.push(x).skip(1).len() == 0);
        assert(obj_remove(ps.push(x).skip(1), key) == Seq::<(Seq<u8>, JsonData)>::empty());
        if x.0 != key {
            assert(obj_remove(ps.push(x), key) =~= obj_remove(ps, key).push(x));
        }
    } else {
        assert(ps.push(x)[0] == ps[0]);
        assert(ps.push(x).skip(1) =~= ps.skip(1).push(x));
        lemma_obj_remove_push(ps.skip(1), x, key);
        if ps[0].0 != key && x.0 != key {
            assert(obj_remove(ps.push(x), key) =~= obj_remove(ps, key).push(x));
        }
    }
}

/// Text well-formedness of a model value: every string and member name
/// holds valid UTF-8 bytes.
pub open spec fn json_text_wf(j: JsonData) -> bool
    decreases j,
{
    match j {
        JsonData::Null => true,
        JsonData::Bool(_) => true,
        JsonData::Int(_) => true,
        JsonData::Num(raw) => forall|i: int| 0 <= i < raw.len() ==> #[trigger] raw[i] < 0x80,
        JsonData::Str(s) => vstd::utf8::valid_utf8(s),
        JsonData::Arr(es) => jsons_text_wf(es),
        JsonData::Obj(ps) => pairs_text_wf(ps),
    }
}

/// Text well-formedness of each value in a sequence.
pub open spec fn jsons_text_wf(es: Seq<JsonData>) -> bool
    decreases es,
{
    if es.len() == 0 {
        true
    } else {
        json_text_wf(es[0]) && jsons_text_wf(es.subrange(1, es.len() as int))
    }
}

/// Text well-formedness of each member in a sequence.
pub open spec fn pairs_text_wf(ps: Seq<(Seq<u8>, JsonData)>) -> bool
    decreases ps,
{
    if ps.len() == 0 {
        true
    } else {
        vstd::utf8::valid_utf8(ps[0].0) && json_text_wf(ps[0].1) && pairs_text_wf(
            ps.subrange(1, ps.len() as int),
        )
    }
}

/// A text well-formed value sequence is well-formed element by element.
pub proof fn lemma_jsons_text_wf_index(es: Seq<JsonData>)
    ensures
        jsons_text_wf(es) <==> (forall|k: int|
            0 <= k < es.len() ==> json_text_wf(#[trigger] es[k])),
    decreases es.len(),
{
    if es.len() > 0 {
        lemma_jsons_text_wf_index(es.subrange(1, es.len() as int));
        assert(forall|k: int|
            1 <= k < es.len() ==> es.subrange(1, es.len() as int)[k - 1] == #[trigger] es[k]);
    }
}

/// A text well-formed member sequence is well-formed member by member.
pub proof fn lemma_pairs_text_wf_index(ps: Seq<(Seq<u8>, JsonData)>)
    ensures
        pairs_text_wf(ps) <==> (forall|k: int|
            0 <= k < ps.len() ==> vstd::utf8::valid_utf8((#[trigger] ps[k]).0) && json_text_wf(
                ps[k].1,
            )),
    decreases ps.len(),
{
    if ps.len() > 0 {
        lemma_pairs_text_wf_index(ps.subrange(1, ps.len() as int));
        assert(forall|k: int|
            1 <= k < ps.len() ==> ps.subrange(1, ps.len() as int)[k - 1] == #[trigger] ps[k]);
    }
}

} // verus!
