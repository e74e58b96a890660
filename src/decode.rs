//! Reading scalars, references and op definitions from their wire form.

use vstd::prelude::*;

use crate::codec::{
    dec_args, dec_form, dec_form_arr, dec_members, dec_obj, dec_opdef, dec_opdef_payload,
    dec_opref_entry, dec_scalar, dec_seq, dec_subject, dec_tcref, dec_tcref_entry, dec_triple,
    dec_typed_value, is_value_label, opdef_type_of, opref_from_args, starts_with,
    ArgsV, OPDEF_DELETE, OPDEF_GET, OPDEF_POST, OPDEF_PUT, OPREF_DELETE, OPREF_GET, OPREF_POST,
    OPREF_PUT, TCREF_COND, TCREF_FOR_EACH, TCREF_IF, TCREF_WHILE, VALUE_LINK, VALUE_NONE,
    VALUE_NUMBER, VALUE_STRING,
};
use crate::error::{Error, ErrorKind};
use crate::ident::{Id, IdRef, Link};
use crate::json::{json_view, jsons_view, lemma_jsons_view, lemma_members_view, members_view, Json, JsonV};
use crate::map::{entries_view, insert_sorted, IdMap};
use crate::scalar::{
    lemma_pairs_view, lemma_scalars_view, pairs_view, scalar_view, scalars_view, CondOp, ForEach,
    IfRef, Number, OpDef, OpDefType, OpRef, PairsV, Scalar, ScalarV, TCRef, Value, While,
};
use crate::subject::{subject_from_str, Subject};
use crate::text::{text_eq, text_starts_with};

verus! {

fn bad(msg: &str) -> (e: Error)
    ensures
        e.kind() == ErrorKind::BadRequest,
{
    Error::bad_request(msg.to_owned())
}

// ---------------------------------------------------------------- sequence facts

proof fn lemma_jsons_prefix(s: Seq<Json>, i: int)
    requires
        0 <= i < s.len(),
    ensures
        jsons_view(s.subrange(0, i + 1)) == jsons_view(s.subrange(0, i)).push(json_view(s[i])),
{
    assert(s.subrange(0, i + 1).subrange(0, i) =~= s.subrange(0, i));
}

proof fn lemma_members_prefix(s: Seq<(String, Json)>, i: int)
    requires
        0 <= i < s.len(),
    ensures
        members_view(s.subrange(0, i + 1)) == members_view(s.subrange(0, i)).push(
            (s[i].0@, json_view(s[i].1)),
        ),
{
    assert(s.subrange(0, i + 1).subrange(0, i) =~= s.subrange(0, i));
}

proof fn lemma_scalars_push(s: Seq<Scalar>, x: Scalar)
    ensures
        scalars_view(s.push(x)) == scalars_view(s).push(scalar_view(x)),
{
    assert(s.push(x).subrange(0, s.len() as int) =~= s);
}

proof fn lemma_pairs_push(s: Seq<(Id, Scalar)>, x: (Id, Scalar))
    ensures
        pairs_view(s.push(x)) == pairs_view(s).push((x.0@, scalar_view(x.1))),
{
    assert(s.push(x).subrange(0, s.len() as int) =~= s);
}

proof fn lemma_dec_seq_none(s: Seq<JsonV>, i: int)
    requires
        0 <= i <= s.len(),
        dec_seq(s.subrange(0, i)) is None,
    ensures
        dec_seq(s) is None,
    decreases s.len() - i,
{
    if i == s.len() {
        assert(s.subrange(0, i) =~= s);
    } else {
        assert(s.subrange(0, i + 1).subrange(0, i) =~= s.subrange(0, i));
        lemma_dec_seq_none(s, i + 1);
    }
}

proof fn lemma_dec_members_none(s: Seq<(Seq<char>, JsonV)>, i: int)
    requires
        0 <= i <= s.len(),
        dec_members(s.subrange(0, i)) is None,
    ensures
        dec_members(s) is None,
    decreases s.len() - i,
{
    if i == s.len() {
        assert(s.subrange(0, i) =~= s);
    } else {
        assert(s.subrange(0, i + 1).subrange(0, i) =~= s.subrange(0, i));
        lemma_dec_members_none(s, i + 1);
    }
}

proof fn lemma_dec_form_none(s: Seq<JsonV>, i: int)
    requires
        0 <= i <= s.len(),
        dec_form(s.subrange(0, i)) is None,
    ensures
        dec_form(s) is None,
    decreases s.len() - i,
{
    if i == s.len() {
        assert(s.subrange(0, i) =~= s);
    } else {
        assert(s.subrange(0, i + 1).subrange(0, i) =~= s.subrange(0, i));
        lemma_dec_form_none(s, i + 1);
    }
}

/// Entries with their values seen as scalars.
spec fn vals_view(s: Seq<(Seq<char>, Scalar)>) -> PairsV {
    s.map_values(|e: (Seq<char>, Scalar)| (e.0, scalar_view(e.1)))
}

proof fn lemma_pairs_vals(s: Seq<(Id, Scalar)>)
    ensures
        pairs_view(s) == vals_view(entries_view(s)),
{
    lemma_pairs_view(s);
    assert(pairs_view(s) =~= vals_view(entries_view(s)));
}

proof fn lemma_insert_vals(s: Seq<(Seq<char>, Scalar)>, k: Seq<char>, v: Scalar)
    ensures
        insert_sorted(vals_view(s), k, scalar_view(v)) == match insert_sorted(s, k, v) {
            Some(r) => Some(vals_view(r)),
            None => None,
        },
    decreases s.len(),
{
    if s.len() > 0 {
        let t = s.subrange(0, s.len() - 1);
        lemma_insert_vals(t, k, v);
        assert(vals_view(s).subrange(0, s.len() - 1) =~= vals_view(t));
        assert(vals_view(s.push((k, v))) =~= vals_view(s).push((k, scalar_view(v))));
        match insert_sorted(t, k, v) {
            Some(r) => {
                assert(vals_view(r.push(s[s.len() - 1])) =~= vals_view(r).push(vals_view(s)[s.len() - 1]));
            },
            None => {},
        }
    } else {
        assert(vals_view(seq![(k, v)]) =~= seq![(k, scalar_view(v))]);
    }
}

// ---------------------------------------------------------------- arguments

/// The arguments of an op reference.
enum OpArgs {
    Params(IdMap<Scalar>),
    List(Vec<Scalar>),
}

spec fn args_view(a: OpArgs) -> ArgsV {
    match a {
        OpArgs::Params(m) => ArgsV::Params(pairs_view(m.entries@)),
        OpArgs::List(v) => ArgsV::List(scalars_view(v@)),
    }
}

fn opref_of_args(subject: Subject, args: OpArgs) -> (r: Result<OpRef, Error>)
    ensures
        r matches Ok(o) ==> opref_from_args(subject@, args_view(args)) == Some(o@),
        r matches Err(e) ==> opref_from_args(subject@, args_view(args)) is None && e.kind()
            == ErrorKind::BadRequest,
{
    match args {
        OpArgs::Params(m) => Ok(OpRef::Post((subject, m))),
        OpArgs::List(mut items) => {
            proof {
                lemma_scalars_view(items@);
            }
            if items.len() == 1 {
                let k = items.remove(0);
                Ok(OpRef::Get((subject, k)))
            } else if items.len() == 2 {
                let v = items.remove(1);
                let k = items.remove(0);
                Ok(OpRef::Put((subject, k, v)))
            } else {
                Err(bad("invalid op reference arguments (expected 1 or 2 elements)"))
            }
        },
    }
}

// ---------------------------------------------------------------- decoders

/// Reads a scalar from its wire form; fails with `BadRequest` where
/// [`dec_scalar`] has no value.
pub fn decode_scalar(j: &Json) -> (r: Result<Scalar, Error>)
    ensures
        r matches Ok(x) ==> dec_scalar(j@) == Some(x@),
        r matches Err(e) ==> dec_scalar(j@) is None && e.kind() == ErrorKind::BadRequest,
    decreases j, 0int,
{
    match j {
        Json::Null => Ok(Scalar::Value(Value::Null)),
        Json::Bool(b) => Ok(Scalar::Value(Value::Number(Number::Bool(*b)))),
        Json::Int(i) => Ok(Scalar::Value(Value::Number(Number::Int(*i)))),
        Json::UInt(u) => Ok(Scalar::Value(Value::Number(Number::UInt(*u)))),
        Json::Str(s) => Ok(Scalar::Value(Value::String(s.clone()))),
        Json::Arr(items) => {
            let v = decode_seq(items)?;
            Ok(Scalar::Tuple(v))
        },
        Json::Obj(m) => {
            if m.len() == 0 {
                let e = IdMap::new();
                proof {
                    assert(e.pairs().len() == e.entries@.len());
                    assert(e.entries@.len() == 0);
                    assert(e.entries@ =~= Seq::<(Id, Scalar)>::empty());
                }
                Ok(Scalar::IdMap(e))
            } else {
                decode_obj(m)
            }
        },
    }
}

fn decode_seq(v: &Vec<Json>) -> (r: Result<Vec<Scalar>, Error>)
    ensures
        r matches Ok(x) ==> dec_seq(jsons_view(v@)) == Some(scalars_view(x@)),
        r matches Err(e) ==> dec_seq(jsons_view(v@)) is None && e.kind() == ErrorKind::BadRequest,
    decreases v, 0int,
{
    let mut out: Vec<Scalar> = Vec::new();
    let mut i: usize = 0;
    proof {
        assert(jsons_view(v@.subrange(0, 0)) =~= Seq::<JsonV>::empty());
        assert(scalars_view(out@) =~= Seq::<ScalarV>::empty());
    }
    while i < v.len()
        invariant
            i <= v.len(),
            dec_seq(jsons_view(v@.subrange(0, i as int))) == Some(scalars_view(out@)),
        decreases v.len() - i,
    {
        proof {
            lemma_jsons_prefix(v@, i as int);
            lemma_jsons_view(v@);
            lemma_jsons_view(v@.subrange(0, i as int));
            let pre = jsons_view(v@.subrange(0, i as int));
            assert(jsons_view(v@.subrange(0, i as int + 1)).subrange(0, i as int) =~= pre);
        }
        match decode_scalar(&v[i]) {
            Ok(x) => {
                let ghost before = out@;
                out.push(x);
                proof {
                    lemma_scalars_push(before, x);
                    assert(before.push(x) =~= out@);
                }
            },
            Err(e) => {
                proof {
                    lemma_jsons_view(v@.subrange(0, i as int + 1));
                    assert(jsons_view(v@.subrange(0, i as int + 1)) =~= jsons_view(v@).subrange(0, i as int + 1)) by {
                        lemma_jsons_view(v@);
                    }
                    lemma_dec_seq_none(jsons_view(v@), i as int + 1);
                }
                return Err(e);
            },
        }
        i = i + 1;
    }
    proof {
        assert(v@.subrange(0, v@.len() as int) =~= v@);
    }
    Ok(out)
}

fn decode_members(v: &Vec<(String, Json)>) -> (r: Result<IdMap<Scalar>, Error>)
    ensures
        r matches Ok(m) ==> m.wf() && dec_members(members_view(v@)) == Some(pairs_view(m.entries@)),
        r matches Err(e) ==> dec_members(members_view(v@)) is None && e.kind() == ErrorKind::BadRequest,
    decreases v, 0int,
{
    let mut out: IdMap<Scalar> = IdMap::new();
    let mut i: usize = 0;
    proof {
        assert(members_view(v@.subrange(0, 0)) =~= Seq::<(Seq<char>, JsonV)>::empty());
        assert(out.pairs().len() == out.entries@.len());
        assert(out.entries@.len() == 0);
        assert(out.entries@ =~= Seq::<(Id, Scalar)>::empty());
    }
    while i < v.len()
        invariant
            i <= v.len(),
            out.wf(),
            dec_members(members_view(v@.subrange(0, i as int))) == Some(pairs_view(out.entries@)),
        decreases v.len() - i,
    {
        proof {
            lemma_members_prefix(v@, i as int);
            lemma_members_view(v@.subrange(0, i as int));
            lemma_members_view(v@.subrange(0, i as int + 1));
            let pre = members_view(v@.subrange(0, i as int));
            assert(members_view(v@.subrange(0, i as int + 1)).subrange(0, i as int) =~= pre);
            lemma_members_view(v@);
            assert(members_view(v@.subrange(0, i as int + 1)) =~= members_view(v@).subrange(0, i as int + 1));
        }
        let x = match decode_scalar(&v[i].1) {
            Ok(x) => x,
            Err(e) => {
                proof {
                    lemma_dec_members_none(members_view(v@), i as int + 1);
                }
                return Err(e);
            },
        };
        let key = match Id::parse(v[i].0.as_str()) {
            Ok(k) => k,
            Err(e) => {
                proof {
                    lemma_dec_members_none(members_view(v@), i as int + 1);
                }
                return Err(e);
            },
        };
        let ghost before = out.pairs();
        let ghost xv = x;
        proof {
            lemma_pairs_vals(out.entries@);
            lemma_insert_vals(before, key@, x);
        }
        match out.insert(key, x) {
            Ok(()) => {
                proof {
                    lemma_pairs_vals(out.entries@);
                }
            },
            Err(e) => {
                proof {
                    lemma_dec_members_none(members_view(v@), i as int + 1);
                }
                return Err(e);
            },
        }
        i = i + 1;
    }
    proof {
        assert(v@.subrange(0, v@.len() as int) =~= v@);
    }
    Ok(out)
}

fn decode_form(v: &Vec<Json>) -> (r: Result<Vec<(Id, Scalar)>, Error>)
    ensures
        r matches Ok(x) ==> dec_form(jsons_view(v@)) == Some(pairs_view(x@)),
        r matches Err(e) ==> dec_form(jsons_view(v@)) is None && e.kind() == ErrorKind::BadRequest,
    decreases v, 0int,
{
    let mut out: Vec<(Id, Scalar)> = Vec::new();
    let mut i: usize = 0;
    proof {
        assert(jsons_view(v@.subrange(0, 0)) =~= Seq::<JsonV>::empty());
        assert(pairs_view(out@) =~= Seq::<(Seq<char>, ScalarV)>::empty());
    }
    while i < v.len()
        invariant
            i <= v.len(),
            dec_form(jsons_view(v@.subrange(0, i as int))) == Some(pairs_view(out@)),
        decreases v.len() - i,
    {
        proof {
            lemma_jsons_prefix(v@, i as int);
            lemma_jsons_view(v@.subrange(0, i as int));
            let pre = jsons_view(v@.subrange(0, i as int));
            assert(jsons_view(v@.subrange(0, i as int + 1)).subrange(0, i as int) =~= pre);
            lemma_jsons_view(v@);
            lemma_jsons_view(v@.subrange(0, i as int + 1));
            assert(jsons_view(v@.subrange(0, i as int + 1)) =~= jsons_view(v@).subrange(0, i as int + 1));
        }
        let entry = match &v[i] {
            Json::Arr(pair) => {
                proof {
                    lemma_jsons_view(pair@);
                }
                if pair.len() == 2 {
                    match &pair[0] {
                        Json::Str(k) => match decode_scalar(&pair[1]) {
                            Ok(x) => match Id::parse(k.as_str()) {
                                Ok(id) => Ok((id, x)),
                                Err(e) => Err(e),
                            },
                            Err(e) => Err(e),
                        },
                        _ => Err(bad("invalid binding (expected a name)")),
                    }
                } else {
                    Err(bad("invalid binding (expected 2 elements)"))
                }
            },
            _ => Err(bad("invalid binding (expected a list)")),
        };
        match entry {
            Ok(e) => {
                let ghost before = out@;
                out.push(e);
                proof {
                    lemma_pairs_push(before, e);
                    assert(before.push(e) =~= out@);
                }
            },
            Err(e) => {
                proof {
                    lemma_dec_form_none(jsons_view(v@), i as int + 1);
                }
                return Err(e);
            },
        }
        i = i + 1;
    }
    proof {
        assert(v@.subrange(0, v@.len() as int) =~= v@);
    }
    Ok(out)
}

fn decode_form_arr(p: &Json) -> (r: Result<Vec<(Id, Scalar)>, Error>)
    ensures
        r matches Ok(x) ==> dec_form_arr(p@) == Some(pairs_view(x@)),
        r matches Err(e) ==> dec_form_arr(p@) is None && e.kind() == ErrorKind::BadRequest,
    decreases p, 1int,
{
    match p {
        Json::Arr(f) => decode_form(f),
        _ => Err(bad("invalid bindings (expected a list)")),
    }
}

fn decode_args(p: &Json) -> (r: Result<OpArgs, Error>)
    ensures
        r matches Ok(a) ==> dec_args(p@) == Some(args_view(a)),
        r matches Err(e) ==> dec_args(p@) is None && e.kind() == ErrorKind::BadRequest,
    decreases p, 3int,
{
    match p {
        Json::Arr(items) => {
            let v = decode_seq(items)?;
            Ok(OpArgs::List(v))
        },
        Json::Obj(m) => {
            let v = decode_members(m)?;
            Ok(OpArgs::Params(v))
        },
        _ => Err(bad("invalid op reference arguments (expected a list or a map)")),
    }
}

fn decode_typed_value(k: &str, p: &Json) -> (r: Result<Value, Error>)
    requires
        is_value_label(k@),
    ensures
        r matches Ok(x) ==> dec_typed_value(k@, p@) == Some(x@),
        r matches Err(e) ==> dec_typed_value(k@, p@) is None && e.kind() == ErrorKind::BadRequest,
{
    if text_eq(k, VALUE_NONE) {
        Ok(Value::Null)
    } else if text_eq(k, VALUE_NUMBER) {
        match p {
            Json::Bool(b) => Ok(Value::Number(Number::Bool(*b))),
            Json::Int(i) => Ok(Value::Number(Number::Int(*i))),
            Json::UInt(u) => Ok(Value::Number(Number::UInt(*u))),
            _ => Err(bad("invalid number")),
        }
    } else if text_eq(k, VALUE_STRING) {
        match p {
            Json::Str(s) => Ok(Value::String(s.clone())),
            _ => Err(bad("invalid string")),
        }
    } else {
        match p {
            Json::Str(s) => {
                let l = Link::parse(s.as_str())?;
                Ok(Value::Link(l))
            },
            _ => Err(bad("invalid link")),
        }
    }
}

/// The verb whose op-definition label is `k`, if any.
fn opdef_type_from(k: &str) -> (r: Option<OpDefType>)
    ensures
        r == opdef_type_of(k@),
{
    if text_eq(k, OPDEF_GET) {
        Some(OpDefType::Get)
    } else if text_eq(k, OPDEF_PUT) {
        Some(OpDefType::Put)
    } else if text_eq(k, OPDEF_POST) {
        Some(OpDefType::Post)
    } else if text_eq(k, OPDEF_DELETE) {
        Some(OpDefType::Delete)
    } else {
        None
    }
}

fn decode_opdef_payload(t: OpDefType, p: &Json) -> (r: Result<OpDef, Error>)
    ensures
        r matches Ok(x) ==> dec_opdef_payload(t, p@) == Some(x@),
        r matches Err(e) ==> dec_opdef_payload(t, p@) is None && e.kind() == ErrorKind::BadRequest,
    decreases p, 2int,
{
    match p {
        Json::Arr(items) => {
            proof {
                lemma_jsons_view(items@);
            }
            match t {
                OpDefType::Get => {
                    if items.len() != 2 {
                        return Err(bad("invalid GET definition (expected 2 elements)"));
                    }
                    match &items[0] {
                        Json::Str(k) => {
                            let f = decode_form_arr(&items[1])?;
                            let id = Id::parse(k.as_str())?;
                            Ok(OpDef::Get((id, f)))
                        },
                        _ => Err(bad("invalid GET definition (expected a key name)")),
                    }
                },
                OpDefType::Put => {
                    if items.len() != 3 {
                        return Err(bad("invalid PUT definition (expected 3 elements)"));
                    }
                    match (&items[0], &items[1]) {
                        (Json::Str(k), Json::Str(v)) => {
                            let f = decode_form_arr(&items[2])?;
                            let kid = Id::parse(k.as_str())?;
                            let vid = Id::parse(v.as_str())?;
                            Ok(OpDef::Put((kid, vid, f)))
                        },
                        _ => Err(bad("invalid PUT definition (expected key and value names)")),
                    }
                },
                OpDefType::Post => {
                    let f = decode_form(items)?;
                    Ok(OpDef::Post(f))
                },
                OpDefType::Delete => {
                    if items.len() != 2 {
                        return Err(bad("invalid DELETE definition (expected 2 elements)"));
                    }
                    match &items[0] {
                        Json::Str(k) => {
                            let f = decode_form_arr(&items[1])?;
                            let id = Id::parse(k.as_str())?;
                            Ok(OpDef::Delete((id, f)))
                        },
                        _ => Err(bad("invalid DELETE definition (expected a key name)")),
                    }
                },
            }
        },
        _ => Err(bad("invalid op definition (expected a list)")),
    }
}

/// Reads an op definition: an object whose first key is an op-definition
/// label; fails with `BadRequest` where [`dec_opdef`] has no value.
pub fn decode_opdef(j: &Json) -> (r: Result<OpDef, Error>)
    ensures
        r matches Ok(x) ==> dec_opdef(j@) == Some(x@),
        r matches Err(e) ==> dec_opdef(j@) is None && e.kind() == ErrorKind::BadRequest,
    decreases j, 0int,
{
    match j {
        Json::Obj(m) => {
            proof {
                lemma_members_view(m@);
            }
            if m.len() == 0 {
                return Err(bad("expected an op definition, found an empty map"));
            }
            match opdef_type_from(m[0].0.as_str()) {
                Some(t) => decode_opdef_payload(t, &m[0].1),
                None => Err(bad("expected an op definition label")),
            }
        },
        _ => Err(bad("expected an op definition (a map)")),
    }
}

fn decode_subject(p: &Json) -> (r: Result<Subject, Error>)
    ensures
        r matches Ok(x) ==> dec_subject(p@) == Some(x@),
        r matches Err(e) ==> dec_subject(p@) is None && e.kind() == ErrorKind::BadRequest,
{
    match p {
        Json::Str(s) => subject_from_str(s.as_str()),
        _ => Err(bad("invalid subject (expected a string)")),
    }
}

fn decode_opref_entry(k: &str, p: &Json) -> (r: Result<OpRef, Error>)
    ensures
        r matches Ok(x) ==> dec_opref_entry(k@, p@) == Some(x@),
        r matches Err(e) ==> dec_opref_entry(k@, p@) is None && e.kind() == ErrorKind::BadRequest,
    decreases p, 4int,
{
    let slash = text_starts_with(k, '/');
    let is_get = text_eq(k, OPREF_GET);
    let is_put = text_eq(k, OPREF_PUT);
    let is_post = text_eq(k, OPREF_POST);
    let is_delete = text_eq(k, OPREF_DELETE);
    if slash && (is_get || is_delete || is_put || is_post) {
        match p {
            Json::Arr(items) => {
                proof {
                    lemma_jsons_view(items@);
                }
                if is_get || is_delete {
                    if items.len() != 2 {
                        return Err(bad("invalid op reference (expected 2 elements)"));
                    }
                    let s = decode_subject(&items[0])?;
                    let x = decode_scalar(&items[1])?;
                    if is_get {
                        Ok(OpRef::Get((s, x)))
                    } else {
                        Ok(OpRef::Delete((s, x)))
                    }
                } else if is_put {
                    if items.len() != 3 {
                        return Err(bad("invalid PUT reference (expected 3 elements)"));
                    }
                    let s = decode_subject(&items[0])?;
                    let x = decode_scalar(&items[1])?;
                    let y = decode_scalar(&items[2])?;
                    Ok(OpRef::Put((s, x, y)))
                } else {
                    if items.len() != 2 {
                        return Err(bad("invalid POST reference (expected 2 elements)"));
                    }
                    let s = decode_subject(&items[0])?;
                    match &items[1] {
                        Json::Obj(m) => {
                            let params = decode_members(m)?;
                            Ok(OpRef::Post((s, params)))
                        },
                        _ => Err(bad("invalid POST reference (expected parameters)")),
                    }
                }
            },
            _ => Err(bad("invalid op reference (expected a list)")),
        }
    } else {
        let s = subject_from_str(k)?;
        let args = decode_args(p)?;
        opref_of_args(s, args)
    }
}

fn decode_triple(p: &Json) -> (r: Result<(Scalar, Scalar, Scalar), Error>)
    ensures
        r matches Ok(x) ==> dec_triple(p@) == Some(seq![x.0@, x.1@, x.2@]),
        r matches Err(e) ==> dec_triple(p@) is None && e.kind() == ErrorKind::BadRequest,
    decreases p, 1int,
{
    match p {
        Json::Arr(items) => {
            let mut v = decode_seq(items)?;
            proof {
                lemma_scalars_view(v@);
            }
            if v.len() != 3 {
                return Err(bad("invalid control-flow arguments (expected 3 elements)"));
            }
            let ghost vv = scalars_view(v@);
            let c = v.pop().unwrap();
            let b = v.pop().unwrap();
            let a = v.pop().unwrap();
            proof {
                assert(vv =~= seq![a@, b@, c@]);
            }
            Ok((a, b, c))
        },
        _ => Err(bad("invalid control-flow arguments (expected a list)")),
    }
}

fn decode_if(p: &Json) -> (r: Result<TCRef, Error>)
    ensures
        r matches Ok(x) ==> dec_tcref_entry(TCREF_IF@, p@) == Some(x@),
        r matches Err(e) ==> dec_tcref_entry(TCREF_IF@, p@) is None && e.kind() == ErrorKind::BadRequest,
    decreases p, 4int,
{
    let (c, a, b) = decode_triple(p)?;
    match c {
        Scalar::Ref(r) => Ok(TCRef::If(Box::new(IfRef { cond: *r, then_branch: a, or_else: b }))),
        _ => Err(bad("invalid If condition (expected a reference)")),
    }
}

fn decode_cond(p: &Json) -> (r: Result<TCRef, Error>)
    ensures
        r matches Ok(x) ==> dec_tcref_entry(TCREF_COND@, p@) == Some(x@),
        r matches Err(e) ==> dec_tcref_entry(TCREF_COND@, p@) is None && e.kind() == ErrorKind::BadRequest,
    decreases p, 4int,
{
    proof {
        crate::codec::lemma_label_order();
    }
    match p {
        Json::Arr(items) => {
            proof {
                lemma_jsons_view(items@);
            }
            if items.len() != 3 {
                return Err(bad("invalid Cond arguments (expected 3 elements)"));
            }
            let c = decode_scalar(&items[0])?;
            let a = decode_opdef(&items[1])?;
            let b = decode_opdef(&items[2])?;
            match c {
                Scalar::Ref(r) => Ok(
                    TCRef::Cond(Box::new(CondOp { cond: *r, then_branch: a, or_else: b })),
                ),
                _ => Err(bad("invalid Cond condition (expected a reference)")),
            }
        },
        _ => Err(bad("invalid Cond arguments (expected a list)")),
    }
}

fn decode_while(p: &Json) -> (r: Result<TCRef, Error>)
    ensures
        r matches Ok(x) ==> dec_tcref_entry(TCREF_WHILE@, p@) == Some(x@),
        r matches Err(e) ==> dec_tcref_entry(TCREF_WHILE@, p@) is None && e.kind() == ErrorKind::BadRequest,
    decreases p, 4int,
{
    proof {
        crate::codec::lemma_label_order();
    }
    let (c, f, s) = decode_triple(p)?;
    Ok(TCRef::While(Box::new(While { cond: c, closure: f, state: s })))
}

fn decode_for_each(p: &Json) -> (r: Result<TCRef, Error>)
    ensures
        r matches Ok(x) ==> dec_tcref_entry(TCREF_FOR_EACH@, p@) == Some(x@),
        r matches Err(e) ==> dec_tcref_entry(TCREF_FOR_EACH@, p@) is None && e.kind() == ErrorKind::BadRequest,
    decreases p, 4int,
{
    proof {
        crate::codec::lemma_label_order();
    }
    let (i, o, n) = decode_triple(p)?;
    match n {
        Scalar::Value(Value::String(raw)) => {
            let name = Id::parse(raw.as_str())?;
            Ok(TCRef::ForEach(Box::new(ForEach { items: i, op: o, item_name: name })))
        },
        _ => Err(bad("invalid ForEach item name (expected a string)")),
    }
}

fn decode_scoped(k: &str, p: &Json) -> (r: Result<TCRef, Error>)
    requires
        starts_with(k@, '$'),
    ensures
        r matches Ok(x) ==> dec_tcref_entry(k@, p@) == Some(x@),
        r matches Err(e) ==> dec_tcref_entry(k@, p@) is None && e.kind() == ErrorKind::BadRequest,
    decreases p, 4int,
{
    proof {
        crate::codec::lemma_label_order();
    }
    let args = decode_args(p)?;
    let empty = match &args {
        OpArgs::List(items) => items.len() == 0,
        _ => false,
    };
    if empty {
        proof {
            lemma_scalars_view(args->List_0@);
        }
        let x = IdRef::parse(k)?;
        Ok(TCRef::Id(x))
    } else {
        let s = subject_from_str(k)?;
        let o = opref_of_args(s, args)?;
        Ok(TCRef::Op(o))
    }
}

fn decode_tcref_entry(k: &str, p: &Json) -> (r: Result<TCRef, Error>)
    ensures
        r matches Ok(x) ==> dec_tcref_entry(k@, p@) == Some(x@),
        r matches Err(e) ==> dec_tcref_entry(k@, p@) is None && e.kind() == ErrorKind::BadRequest,
    decreases p, 5int,
{
    if text_eq(k, TCREF_IF) {
        decode_if(p)
    } else if text_eq(k, TCREF_COND) {
        decode_cond(p)
    } else if text_eq(k, TCREF_WHILE) {
        decode_while(p)
    } else if text_eq(k, TCREF_FOR_EACH) {
        decode_for_each(p)
    } else if text_starts_with(k, '$') {
        decode_scoped(k, p)
    } else {
        let o = decode_opref_entry(k, p)?;
        Ok(TCRef::Op(o))
    }
}

/// Reads a reference: an object, by its first entry; fails with `BadRequest`
/// where [`dec_tcref`] has no value.
pub fn decode_tcref(j: &Json) -> (r: Result<TCRef, Error>)
    ensures
        r matches Ok(x) ==> dec_tcref(j@) == Some(x@),
        r matches Err(e) ==> dec_tcref(j@) is None && e.kind() == ErrorKind::BadRequest,
{
    match j {
        Json::Obj(m) => {
            proof {
                lemma_members_view(m@);
            }
            if m.len() == 0 {
                return Err(bad("expected a reference, found an empty map"));
            }
            decode_tcref_entry(m[0].0.as_str(), &m[0].1)
        },
        _ => Err(bad("expected a reference (a map)")),
    }
}

fn decode_obj(m: &Vec<(String, Json)>) -> (r: Result<Scalar, Error>)
    requires
        m.len() > 0,
    ensures
        r matches Ok(x) ==> dec_obj(members_view(m@)) == Some(x@),
        r matches Err(e) ==> dec_obj(members_view(m@)) is None && e.kind() == ErrorKind::BadRequest,
    decreases m, 6int,
{
    proof {
        lemma_members_view(m@);
    }
    let k = m[0].0.as_str();
    let p = &m[0].1;
    if text_starts_with(k, '/') {
        let value_label = text_eq(k, VALUE_NONE) || text_eq(k, VALUE_NUMBER) || text_eq(k, VALUE_STRING)
            || text_eq(k, VALUE_LINK);
        if value_label {
            let v = decode_typed_value(k, p)?;
            return Ok(Scalar::Value(v));
        }
        if let Some(t) = opdef_type_from(k) {
            let d = decode_opdef_payload(t, p)?;
            return Ok(Scalar::Op(d));
        }
        let ref_label = text_eq(k, TCREF_IF) || text_eq(k, TCREF_COND) || text_eq(k, TCREF_WHILE)
            || text_eq(k, TCREF_FOR_EACH) || text_eq(k, OPREF_DELETE);
        if ref_label {
            let r = decode_tcref_entry(k, p)?;
            return Ok(Scalar::Ref(Box::new(r)));
        }
        let args = decode_args(p)?;
        let empty = match &args {
            OpArgs::List(items) => items.len() == 0,
            _ => false,
        };
        if empty {
            proof {
                lemma_scalars_view(args->List_0@);
            }
            match Link::parse(k) {
                Ok(l) => {
                    return Ok(Scalar::Value(Value::Link(l)));
                },
                Err(_) => {},
            }
        }
        let s = subject_from_str(k)?;
        let o = opref_of_args(s, args)?;
        Ok(Scalar::Ref(Box::new(TCRef::Op(o))))
    } else if text_starts_with(k, '$') {
        let r = decode_tcref_entry(k, p)?;
        Ok(Scalar::Ref(Box::new(r)))
    } else {
        let v = decode_members(m)?;
        Ok(Scalar::IdMap(v))
    }
}

} // verus!
