//! Writing scalars, references and op definitions in their wire form.

use vstd::prelude::*;

use crate::codec::{
    enc_form, enc_members, enc_opdef, enc_opref, enc_scalar, enc_seq, enc_tcref, enc_value, single,
    OPDEF_DELETE, OPDEF_GET, OPDEF_POST, OPDEF_PUT, OPREF_DELETE, TCREF_COND, TCREF_FOR_EACH,
    TCREF_IF, TCREF_WHILE,
};
use crate::ident::Id;
use crate::json::{json_view, jsons_view, members_view, Json, JsonV};
use crate::scalar::{
    pairs_view, scalar_view, scalars_view, Number, OpDef, OpRef, Scalar, TCRef, Value,
};

verus! {

pub proof fn lemma_jsons_push(s: Seq<Json>, x: Json)
    ensures
        jsons_view(s.push(x)) == jsons_view(s).push(json_view(x)),
{
    assert(s.push(x).subrange(0, s.len() as int) =~= s);
}

pub proof fn lemma_members_push(s: Seq<(String, Json)>, x: (String, Json))
    ensures
        members_view(s.push(x)) == members_view(s).push((x.0@, json_view(x.1))),
{
    assert(s.push(x).subrange(0, s.len() as int) =~= s);
}

/// The object with the one entry `k: v`.
pub(crate) fn obj1(k: String, v: Json) -> (r: Json)
    ensures
        r@ == single(k@, v@),
{
    let ghost kv = k@;
    let ghost vv = v@;
    let mut m: Vec<(String, Json)> = Vec::new();
    m.push((k, v));
    proof {
        lemma_members_push(Seq::empty(), m@[0]);
        assert(Seq::<(String, Json)>::empty().push(m@[0]) =~= m@);
        assert(members_view(Seq::<(String, Json)>::empty()) =~= Seq::<(Seq<char>, JsonV)>::empty());
        assert(members_view(m@) =~= seq![(kv, vv)]);
    }
    Json::Obj(m)
}

pub(crate) fn arr1(a: Json) -> (r: Json)
    ensures
        r@ == JsonV::Arr(seq![a@]),
{
    let ghost av = a@;
    let mut v: Vec<Json> = Vec::new();
    v.push(a);
    proof {
        lemma_jsons_push(Seq::empty(), v@[0]);
        assert(Seq::<Json>::empty().push(v@[0]) =~= v@);
        assert(jsons_view(Seq::<Json>::empty()) =~= Seq::<JsonV>::empty());
        assert(jsons_view(v@) =~= seq![av]);
    }
    Json::Arr(v)
}

pub(crate) fn arr2(a: Json, b: Json) -> (r: Json)
    ensures
        r@ == JsonV::Arr(seq![a@, b@]),
{
    let ghost av = a@;
    let ghost bv = b@;
    let mut v: Vec<Json> = Vec::new();
    v.push(a);
    let ghost v1 = v@;
    v.push(b);
    proof {
        lemma_jsons_push(Seq::empty(), v1[0]);
        assert(Seq::<Json>::empty().push(v1[0]) =~= v1);
        assert(jsons_view(Seq::<Json>::empty()) =~= Seq::<JsonV>::empty());
        lemma_jsons_push(v1, v@[1]);
        assert(v1.push(v@[1]) =~= v@);
        assert(jsons_view(v@) =~= seq![av, bv]);
    }
    Json::Arr(v)
}

pub(crate) fn arr3(a: Json, b: Json, c: Json) -> (r: Json)
    ensures
        r@ == JsonV::Arr(seq![a@, b@, c@]),
{
    let ghost av = a@;
    let ghost bv = b@;
    let ghost cv = c@;
    let mut v: Vec<Json> = Vec::new();
    v.push(a);
    let ghost v1 = v@;
    v.push(b);
    let ghost v2 = v@;
    v.push(c);
    proof {
        lemma_jsons_push(Seq::empty(), v1[0]);
        assert(Seq::<Json>::empty().push(v1[0]) =~= v1);
        assert(jsons_view(Seq::<Json>::empty()) =~= Seq::<JsonV>::empty());
        lemma_jsons_push(v1, v2[1]);
        assert(v1.push(v2[1]) =~= v2);
        lemma_jsons_push(v2, v@[2]);
        assert(v2.push(v@[2]) =~= v@);
        assert(jsons_view(v@) =~= seq![av, bv, cv]);
    }
    Json::Arr(v)
}

pub(crate) fn str_json(s: &str) -> (r: Json)
    ensures
        r@ == JsonV::Str(s@),
{
    Json::Str(s.to_owned())
}

/// The wire form of a leaf value.
pub fn encode_value(v: &Value) -> (r: Json)
    ensures
        r@ == enc_value(v@),
{
    match v {
        Value::Null => Json::Null,
        Value::Number(Number::Bool(b)) => Json::Bool(*b),
        Value::Number(Number::Int(i)) => Json::Int(*i),
        Value::Number(Number::UInt(u)) => Json::UInt(*u),
        Value::String(s) => Json::Str(s.clone()),
        Value::Link(l) => {
            let empty: Vec<Json> = Vec::new();
            proof {
                assert(jsons_view(empty@) =~= Seq::<JsonV>::empty());
            }
            obj1(l.to_text(), Json::Arr(empty))
        },
    }
}

/// The wire form of a scalar.
pub fn encode_scalar(s: &Scalar) -> (r: Json)
    ensures
        r@ == enc_scalar(s@),
    decreases s,
{
    match s {
        Scalar::Value(v) => encode_value(v),
        Scalar::Ref(r) => encode_tcref(r),
        Scalar::Op(d) => encode_opdef(d),
        Scalar::IdMap(m) => Json::Obj(encode_members(&m.entries)),
        Scalar::Tuple(items) => Json::Arr(encode_seq(items)),
    }
}

fn encode_seq(v: &Vec<Scalar>) -> (r: Vec<Json>)
    ensures
        jsons_view(r@) == enc_seq(scalars_view(v@)),
    decreases v,
{
    let mut out: Vec<Json> = Vec::new();
    let mut i: usize = 0;
    proof {
        assert(v@.subrange(0, 0) =~= Seq::<Scalar>::empty());
        assert(jsons_view(out@) =~= enc_seq(scalars_view(v@.subrange(0, 0))));
    }
    while i < v.len()
        invariant
            i <= v.len(),
            jsons_view(out@) == enc_seq(scalars_view(v@.subrange(0, i as int))),
        decreases v.len() - i,
    {
        let x = encode_scalar(&v[i]);
        let ghost before = out@;
        out.push(x);
        proof {
            lemma_jsons_push(before, x);
            let pre = v@.subrange(0, i as int);
            let next = v@.subrange(0, i as int + 1);
            assert(next.subrange(0, i as int) =~= pre);
            assert(scalars_view(next) == scalars_view(pre).push(scalar_view(v@[i as int])));
            assert(scalars_view(next).subrange(0, i as int) =~= scalars_view(pre)) by {
                crate::scalar::lemma_scalars_view(pre);
            }
            crate::scalar::lemma_scalars_view(next);
            assert(out@ =~= before.push(x));
        }
        i = i + 1;
    }
    proof {
        assert(v@.subrange(0, v@.len() as int) =~= v@);
    }
    out
}

fn encode_members(v: &Vec<(Id, Scalar)>) -> (r: Vec<(String, Json)>)
    ensures
        members_view(r@) == enc_members(pairs_view(v@)),
    decreases v,
{
    let mut out: Vec<(String, Json)> = Vec::new();
    let mut i: usize = 0;
    proof {
        assert(v@.subrange(0, 0) =~= Seq::<(Id, Scalar)>::empty());
        assert(members_view(out@) =~= enc_members(pairs_view(v@.subrange(0, 0))));
    }
    while i < v.len()
        invariant
            i <= v.len(),
            members_view(out@) == enc_members(pairs_view(v@.subrange(0, i as int))),
        decreases v.len() - i,
    {
        let x = encode_scalar(&v[i].1);
        let k = v[i].0.to_text();
        let ghost before = out@;
        out.push((k, x));
        proof {
            lemma_members_push(before, (k, x));
            let pre = v@.subrange(0, i as int);
            let next = v@.subrange(0, i as int + 1);
            assert(next.subrange(0, i as int) =~= pre);
            crate::scalar::lemma_pairs_view(pre);
            crate::scalar::lemma_pairs_view(next);
            assert(pairs_view(next).subrange(0, i as int) =~= pairs_view(pre));
            assert(out@ =~= before.push((k, x)));
        }
        i = i + 1;
    }
    proof {
        assert(v@.subrange(0, v@.len() as int) =~= v@);
    }
    out
}

fn encode_form(v: &Vec<(Id, Scalar)>) -> (r: Vec<Json>)
    ensures
        jsons_view(r@) == enc_form(pairs_view(v@)),
    decreases v,
{
    let mut out: Vec<Json> = Vec::new();
    let mut i: usize = 0;
    proof {
        assert(v@.subrange(0, 0) =~= Seq::<(Id, Scalar)>::empty());
        assert(jsons_view(out@) =~= enc_form(pairs_view(v@.subrange(0, 0))));
    }
    while i < v.len()
        invariant
            i <= v.len(),
            jsons_view(out@) == enc_form(pairs_view(v@.subrange(0, i as int))),
        decreases v.len() - i,
    {
        let x = encode_scalar(&v[i].1);
        let pair = arr2(str_json(v[i].0.as_str()), x);
        let ghost before = out@;
        out.push(pair);
        proof {
            lemma_jsons_push(before, pair);
            let pre = v@.subrange(0, i as int);
            let next = v@.subrange(0, i as int + 1);
            assert(next.subrange(0, i as int) =~= pre);
            crate::scalar::lemma_pairs_view(pre);
            crate::scalar::lemma_pairs_view(next);
            assert(pairs_view(next).subrange(0, i as int) =~= pairs_view(pre));
            assert(out@ =~= before.push(pair));
        }
        i = i + 1;
    }
    proof {
        assert(v@.subrange(0, v@.len() as int) =~= v@);
    }
    out
}

/// The wire form of an op definition.
pub fn encode_opdef(d: &OpDef) -> (r: Json)
    ensures
        r@ == enc_opdef(d@),
    decreases d,
{
    match d {
        OpDef::Get((k, f)) => {
            let form = Json::Arr(encode_form(f));
            obj1(OPDEF_GET.to_owned(), arr2(str_json(k.as_str()), form))
        },
        OpDef::Put((k, v, f)) => {
            let form = Json::Arr(encode_form(f));
            obj1(OPDEF_PUT.to_owned(), arr3(str_json(k.as_str()), str_json(v.as_str()), form))
        },
        OpDef::Post(f) => obj1(OPDEF_POST.to_owned(), Json::Arr(encode_form(f))),
        OpDef::Delete((k, f)) => {
            let form = Json::Arr(encode_form(f));
            obj1(OPDEF_DELETE.to_owned(), arr2(str_json(k.as_str()), form))
        },
    }
}

/// The wire form of an op reference.
pub fn encode_opref(o: &OpRef) -> (r: Json)
    ensures
        r@ == enc_opref(o@),
    decreases o,
{
    match o {
        OpRef::Get((s, k)) => obj1(s.to_text(), arr1(encode_scalar(k))),
        OpRef::Put((s, k, v)) => {
            let kj = encode_scalar(k);
            let vj = encode_scalar(v);
            obj1(s.to_text(), arr2(kj, vj))
        },
        OpRef::Post((s, p)) => obj1(s.to_text(), Json::Obj(encode_members(&p.entries))),
        OpRef::Delete((s, k)) => {
            let sj = Json::Str(s.to_text());
            obj1(OPREF_DELETE.to_owned(), arr2(sj, encode_scalar(k)))
        },
    }
}

/// The wire form of a reference.
pub fn encode_tcref(t: &TCRef) -> (r: Json)
    ensures
        r@ == enc_tcref(t@),
    decreases t,
{
    match t {
        TCRef::Op(o) => encode_opref(o),
        TCRef::Id(x) => {
            let empty: Vec<Json> = Vec::new();
            proof {
                assert(jsons_view(empty@) =~= Seq::<JsonV>::empty());
            }
            obj1(x.to_text(), Json::Arr(empty))
        },
        TCRef::If(b) => {
            let c = encode_tcref(&b.cond);
            let x = encode_scalar(&b.then_branch);
            let y = encode_scalar(&b.or_else);
            obj1(TCREF_IF.to_owned(), arr3(c, x, y))
        },
        TCRef::Cond(b) => {
            let c = encode_tcref(&b.cond);
            let x = encode_opdef(&b.then_branch);
            let y = encode_opdef(&b.or_else);
            obj1(TCREF_COND.to_owned(), arr3(c, x, y))
        },
        TCRef::While(b) => {
            let c = encode_scalar(&b.cond);
            let x = encode_scalar(&b.closure);
            let y = encode_scalar(&b.state);
            obj1(TCREF_WHILE.to_owned(), arr3(c, x, y))
        },
        TCRef::ForEach(b) => {
            let c = encode_scalar(&b.items);
            let x = encode_scalar(&b.op);
            let y = str_json(b.item_name.as_str());
            obj1(TCREF_FOR_EACH.to_owned(), arr3(c, x, y))
        },
    }
}

} // verus!
