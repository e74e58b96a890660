//! The wire codec: how scalars, references and operation definitions are
//! written as JSON and read back.
//!
//! Decoding dispatches on the first key of an object. A key that starts with
//! `/` is checked against the typed-value labels, next against the op-definition
//! labels, and last against the control-flow labels; any other such key is a link, and its
//! arguments make an op reference, except that a link with an empty argument
//! list is a plain link value. A key that starts with `$` is a scoped
//! reference. Any other object is a map of identifiers.

use vstd::prelude::*;

use crate::ident::{id_ok, id_ref_form, id_ref_text, id_wf, link_valid};
use crate::json::JsonV;
use crate::map::{insert_sorted, keys_ascend};
use crate::scalar::{Number, OpDefType, OpDefV, OpRefV, PairsV, ScalarV, TCRefV, ValueV};
use crate::subject::{lemma_subject_round_trip, subject_form, subject_text, subject_wf, SubjectV};
use crate::text::{lemma_less_irreflexive, seq_less};

verus! {

pub const VALUE_NONE: &'static str = "/state/scalar/value/none";

pub const VALUE_NUMBER: &'static str = "/state/scalar/value/number";

pub const VALUE_STRING: &'static str = "/state/scalar/value/string";

pub const VALUE_LINK: &'static str = "/state/scalar/value/link";

pub const OPDEF_GET: &'static str = "/state/scalar/op/get";

pub const OPDEF_PUT: &'static str = "/state/scalar/op/put";

pub const OPDEF_POST: &'static str = "/state/scalar/op/post";

pub const OPDEF_DELETE: &'static str = "/state/scalar/op/delete";

pub const OPREF_GET: &'static str = "/state/scalar/ref/op/get";

pub const OPREF_PUT: &'static str = "/state/scalar/ref/op/put";

pub const OPREF_POST: &'static str = "/state/scalar/ref/op/post";

pub const OPREF_DELETE: &'static str = "/state/scalar/ref/op/delete";

pub const TCREF_IF: &'static str = "/state/scalar/ref/if";

pub const TCREF_COND: &'static str = "/state/scalar/ref/cond";

pub const TCREF_WHILE: &'static str = "/state/scalar/ref/while";

pub const TCREF_FOR_EACH: &'static str = "/state/scalar/ref/for_each";

/// The label of an op definition's verb.
pub open spec fn opdef_label(t: OpDefType) -> Seq<char> {
    match t {
        OpDefType::Get => OPDEF_GET@,
        OpDefType::Put => OPDEF_PUT@,
        OpDefType::Post => OPDEF_POST@,
        OpDefType::Delete => OPDEF_DELETE@,
    }
}

/// The verb whose op-definition label is `k`, if any.
pub open spec fn opdef_type_of(k: Seq<char>) -> Option<OpDefType> {
    if k == OPDEF_GET@ {
        Some(OpDefType::Get)
    } else if k == OPDEF_PUT@ {
        Some(OpDefType::Put)
    } else if k == OPDEF_POST@ {
        Some(OpDefType::Post)
    } else if k == OPDEF_DELETE@ {
        Some(OpDefType::Delete)
    } else {
        None
    }
}

pub open spec fn is_value_label(k: Seq<char>) -> bool {
    k == VALUE_NONE@ || k == VALUE_NUMBER@ || k == VALUE_STRING@ || k == VALUE_LINK@
}

/// The labels that the scalar decoder hands to the reference decoder.
pub open spec fn is_ref_label(k: Seq<char>) -> bool {
    k == TCREF_IF@ || k == TCREF_COND@ || k == TCREF_WHILE@ || k == TCREF_FOR_EACH@ || k
        == OPREF_DELETE@
}

/// The keys that the decoders read as labels rather than as links.
pub open spec fn is_reserved(k: Seq<char>) -> bool {
    is_value_label(k) || opdef_type_of(k) is Some || is_ref_label(k) || k == OPREF_GET@ || k
        == OPREF_PUT@ || k == OPREF_POST@
}

pub open spec fn starts_with(k: Seq<char>, c: char) -> bool {
    k.len() > 0 && k[0] == c
}

// ---------------------------------------------------------------- encoding

pub open spec fn enc_value(v: ValueV) -> JsonV {
    match v {
        ValueV::Null => JsonV::Null,
        ValueV::Number(Number::Bool(b)) => JsonV::Bool(b),
        ValueV::Number(Number::Int(i)) => JsonV::Int(i),
        ValueV::Number(Number::UInt(u)) => JsonV::UInt(u),
        ValueV::Str(s) => JsonV::Str(s),
        ValueV::Link(l) => JsonV::Obj(seq![(l, JsonV::Arr(Seq::empty()))]),
    }
}

/// The wire form of a scalar.
pub open spec fn enc_scalar(s: ScalarV) -> JsonV
    decreases s,
{
    match s {
        ScalarV::Value(v) => enc_value(v),
        ScalarV::Ref(r) => enc_tcref(*r),
        ScalarV::Op(d) => enc_opdef(d),
        ScalarV::IdMap(p) => JsonV::Obj(enc_members(p)),
        ScalarV::Tuple(items) => JsonV::Arr(enc_seq(items)),
    }
}

pub open spec fn enc_seq(s: Seq<ScalarV>) -> Seq<JsonV>
    decreases s,
{
    if s.len() == 0 {
        Seq::empty()
    } else {
        enc_seq(s.subrange(0, s.len() - 1)).push(enc_scalar(s[s.len() - 1]))
    }
}

pub open spec fn enc_members(p: PairsV) -> Seq<(Seq<char>, JsonV)>
    decreases p,
{
    if p.len() == 0 {
        Seq::empty()
    } else {
        enc_members(p.subrange(0, p.len() - 1)).push((p[p.len() - 1].0, enc_scalar(p[p.len() - 1].1)))
    }
}

/// Let-bindings as a list of `[name, value]` pairs.
pub open spec fn enc_form(p: PairsV) -> Seq<JsonV>
    decreases p,
{
    if p.len() == 0 {
        Seq::empty()
    } else {
        enc_form(p.subrange(0, p.len() - 1)).push(
            JsonV::Arr(seq![JsonV::Str(p[p.len() - 1].0), enc_scalar(p[p.len() - 1].1)]),
        )
    }
}

pub open spec fn single(k: Seq<char>, v: JsonV) -> JsonV {
    JsonV::Obj(seq![(k, v)])
}

/// The wire form of an op definition.
pub open spec fn enc_opdef(d: OpDefV) -> JsonV
    decreases d,
{
    match d {
        OpDefV::Get(k, f) => single(
            OPDEF_GET@,
            JsonV::Arr(seq![JsonV::Str(k), JsonV::Arr(enc_form(f))]),
        ),
        OpDefV::Put(k, v, f) => single(
            OPDEF_PUT@,
            JsonV::Arr(seq![JsonV::Str(k), JsonV::Str(v), JsonV::Arr(enc_form(f))]),
        ),
        OpDefV::Post(f) => single(OPDEF_POST@, JsonV::Arr(enc_form(f))),
        OpDefV::Delete(k, f) => single(
            OPDEF_DELETE@,
            JsonV::Arr(seq![JsonV::Str(k), JsonV::Arr(enc_form(f))]),
        ),
    }
}

/// The wire form of an op reference.
pub open spec fn enc_opref(o: OpRefV) -> JsonV
    decreases o,
{
    match o {
        OpRefV::Get(s, k) => single(subject_text(s), JsonV::Arr(seq![enc_scalar(k)])),
        OpRefV::Put(s, k, v) => single(
            subject_text(s),
            JsonV::Arr(seq![enc_scalar(k), enc_scalar(v)]),
        ),
        OpRefV::Post(s, p) => single(subject_text(s), JsonV::Obj(enc_members(p))),
        OpRefV::Delete(s, k) => single(
            OPREF_DELETE@,
            JsonV::Arr(seq![JsonV::Str(subject_text(s)), enc_scalar(k)]),
        ),
    }
}

/// The wire form of a reference.
pub open spec fn enc_tcref(t: TCRefV) -> JsonV
    decreases t,
{
    match t {
        TCRefV::Op(o) => enc_opref(o),
        TCRefV::Id(x) => single(id_ref_text(x), JsonV::Arr(Seq::empty())),
        TCRefV::If(c, a, b) => single(
            TCREF_IF@,
            JsonV::Arr(seq![enc_tcref(*c), enc_scalar(a), enc_scalar(b)]),
        ),
        TCRefV::Cond(c, a, b) => single(
            TCREF_COND@,
            JsonV::Arr(seq![enc_tcref(*c), enc_opdef(a), enc_opdef(b)]),
        ),
        TCRefV::While(c, f, s) => single(
            TCREF_WHILE@,
            JsonV::Arr(seq![enc_scalar(c), enc_scalar(f), enc_scalar(s)]),
        ),
        TCRefV::ForEach(i, o, n) => single(
            TCREF_FOR_EACH@,
            JsonV::Arr(seq![enc_scalar(i), enc_scalar(o), JsonV::Str(n)]),
        ),
    }
}

// ---------------------------------------------------------------- decoding

/// The arguments of an op reference: a map makes a POST, a list a GET or PUT.
pub enum ArgsV {
    Params(PairsV),
    List(Seq<ScalarV>),
}

/// The op reference that `args` make on `subject`: a map is a POST, one
/// argument a GET, two a PUT; any other count is refused.
pub open spec fn opref_from_args(subject: SubjectV, args: ArgsV) -> Option<OpRefV> {
    match args {
        ArgsV::Params(p) => Some(OpRefV::Post(subject, p)),
        ArgsV::List(items) => if items.len() == 1 {
            Some(OpRefV::Get(subject, items[0]))
        } else if items.len() == 2 {
            Some(OpRefV::Put(subject, items[0], items[1]))
        } else {
            None
        },
    }
}

/// The value under a typed-value label.
pub open spec fn dec_typed_value(k: Seq<char>, p: JsonV) -> Option<ValueV> {
    if k == VALUE_NONE@ {
        Some(ValueV::Null)
    } else if k == VALUE_NUMBER@ {
        match p {
            JsonV::Bool(b) => Some(ValueV::Number(Number::Bool(b))),
            JsonV::Int(i) => Some(ValueV::Number(Number::Int(i))),
            JsonV::UInt(u) => Some(ValueV::Number(Number::UInt(u))),
            _ => None,
        }
    } else if k == VALUE_STRING@ {
        match p {
            JsonV::Str(s) => Some(ValueV::Str(s)),
            _ => None,
        }
    } else {
        match p {
            JsonV::Str(s) => if link_valid(s) {
                Some(ValueV::Link(s))
            } else {
                None
            },
            _ => None,
        }
    }
}

/// What the wire form `j` decodes to as a scalar, if anything.
pub open spec fn dec_scalar(j: JsonV) -> Option<ScalarV>
    decreases j, 0int,
{
    match j {
        JsonV::Null => Some(ScalarV::Value(ValueV::Null)),
        JsonV::Bool(b) => Some(ScalarV::Value(ValueV::Number(Number::Bool(b)))),
        JsonV::Int(i) => Some(ScalarV::Value(ValueV::Number(Number::Int(i)))),
        JsonV::UInt(u) => Some(ScalarV::Value(ValueV::Number(Number::UInt(u)))),
        JsonV::Str(s) => Some(ScalarV::Value(ValueV::Str(s))),
        JsonV::Arr(items) => match dec_seq(items) {
            Some(v) => Some(ScalarV::Tuple(v)),
            None => None,
        },
        JsonV::Obj(m) => if m.len() == 0 {
            Some(ScalarV::IdMap(Seq::empty()))
        } else {
            dec_obj(m)
        },
    }
}

pub open spec fn dec_seq(s: Seq<JsonV>) -> Option<Seq<ScalarV>>
    decreases s, 0int,
{
    if s.len() == 0 {
        Some(Seq::empty())
    } else {
        match (dec_seq(s.subrange(0, s.len() - 1)), dec_scalar(s[s.len() - 1])) {
            (Some(v), Some(x)) => Some(v.push(x)),
            _ => None,
        }
    }
}

/// The entries of an identifier map; a key that is no identifier, or that
/// comes twice, is refused.
pub open spec fn dec_members(m: Seq<(Seq<char>, JsonV)>) -> Option<PairsV>
    decreases m, 0int,
{
    if m.len() == 0 {
        Some(Seq::empty())
    } else {
        let k = m[m.len() - 1].0;
        match (dec_members(m.subrange(0, m.len() - 1)), dec_scalar(m[m.len() - 1].1)) {
            (Some(acc), Some(v)) => if id_ok(k) {
                insert_sorted(acc, k, v)
            } else {
                None
            },
            _ => None,
        }
    }
}

/// Let-bindings from a list of `[name, value]` pairs, in order.
pub open spec fn dec_form(s: Seq<JsonV>) -> Option<PairsV>
    decreases s, 0int,
{
    if s.len() == 0 {
        Some(Seq::empty())
    } else {
        match (dec_form(s.subrange(0, s.len() - 1)), s[s.len() - 1]) {
            (Some(acc), JsonV::Arr(pair)) => if pair.len() == 2 {
                match (pair[0], dec_scalar(pair[1])) {
                    (JsonV::Str(k), Some(v)) => if id_ok(k) {
                        Some(acc.push((k, v)))
                    } else {
                        None
                    },
                    _ => None,
                }
            } else {
                None
            },
            _ => None,
        }
    }
}

/// The bindings of an op definition, from `Arr(form)`.
pub open spec fn dec_form_arr(p: JsonV) -> Option<PairsV>
    decreases p, 1int,
{
    match p {
        JsonV::Arr(f) => dec_form(f),
        _ => None,
    }
}

/// An op definition of verb `t` from its payload.
pub open spec fn dec_opdef_payload(t: OpDefType, p: JsonV) -> Option<OpDefV>
    decreases p, 2int,
{
    match p {
        JsonV::Arr(items) => match t {
            OpDefType::Get => if items.len() == 2 {
                match (items[0], dec_form_arr(items[1])) {
                    (JsonV::Str(k), Some(f)) => if id_ok(k) {
                        Some(OpDefV::Get(k, f))
                    } else {
                        None
                    },
                    _ => None,
                }
            } else {
                None
            },
            OpDefType::Put => if items.len() == 3 {
                match (items[0], items[1], dec_form_arr(items[2])) {
                    (JsonV::Str(k), JsonV::Str(v), Some(f)) => if id_ok(k) && id_ok(v) {
                        Some(OpDefV::Put(k, v, f))
                    } else {
                        None
                    },
                    _ => None,
                }
            } else {
                None
            },
            OpDefType::Post => match dec_form(items) {
                Some(f) => Some(OpDefV::Post(f)),
                None => None,
            },
            OpDefType::Delete => if items.len() == 2 {
                match (items[0], dec_form_arr(items[1])) {
                    (JsonV::Str(k), Some(f)) => if id_ok(k) {
                        Some(OpDefV::Delete(k, f))
                    } else {
                        None
                    },
                    _ => None,
                }
            } else {
                None
            },
        },
        _ => None,
    }
}

/// What the wire form `j` decodes to as an op definition: an object whose
/// first key is an op-definition label.
pub open spec fn dec_opdef(j: JsonV) -> Option<OpDefV>
    decreases j, 0int,
{
    match j {
        JsonV::Obj(m) => if m.len() > 0 {
            match opdef_type_of(m[0].0) {
                Some(t) => dec_opdef_payload(t, m[0].1),
                None => None,
            }
        } else {
            None
        },
        _ => None,
    }
}

/// The arguments of an op reference.
pub open spec fn dec_args(p: JsonV) -> Option<ArgsV>
    decreases p, 3int,
{
    match p {
        JsonV::Arr(items) => match dec_seq(items) {
            Some(v) => Some(ArgsV::List(v)),
            None => None,
        },
        JsonV::Obj(m) => match dec_members(m) {
            Some(v) => Some(ArgsV::Params(v)),
            None => None,
        },
        _ => None,
    }
}

/// A subject given as a string.
pub open spec fn dec_subject(p: JsonV) -> Option<SubjectV> {
    match p {
        JsonV::Str(s) => subject_form(s),
        _ => None,
    }
}

/// An op reference from the entry `k: p`.
pub open spec fn dec_opref_entry(k: Seq<char>, p: JsonV) -> Option<OpRefV>
    decreases p, 4int,
{
    if starts_with(k, '/') && (k == OPREF_GET@ || k == OPREF_DELETE@) {
        match p {
            JsonV::Arr(items) => if items.len() == 2 {
                match (dec_subject(items[0]), dec_scalar(items[1])) {
                    (Some(s), Some(x)) => if k == OPREF_GET@ {
                        Some(OpRefV::Get(s, x))
                    } else {
                        Some(OpRefV::Delete(s, x))
                    },
                    _ => None,
                }
            } else {
                None
            },
            _ => None,
        }
    } else if starts_with(k, '/') && k == OPREF_PUT@ {
        match p {
            JsonV::Arr(items) => if items.len() == 3 {
                match (dec_subject(items[0]), dec_scalar(items[1]), dec_scalar(items[2])) {
                    (Some(s), Some(x), Some(y)) => Some(OpRefV::Put(s, x, y)),
                    _ => None,
                }
            } else {
                None
            },
            _ => None,
        }
    } else if starts_with(k, '/') && k == OPREF_POST@ {
        match p {
            JsonV::Arr(items) => if items.len() == 2 {
                match (dec_subject(items[0]), items[1]) {
                    (Some(s), JsonV::Obj(m)) => match dec_members(m) {
                        Some(params) => Some(OpRefV::Post(s, params)),
                        None => None,
                    },
                    _ => None,
                }
            } else {
                None
            },
            _ => None,
        }
    } else {
        match (subject_form(k), dec_args(p)) {
            (Some(s), Some(args)) => opref_from_args(s, args),
            _ => None,
        }
    }
}

/// The three elements of a control-flow payload, decoded as scalars.
pub open spec fn dec_triple(p: JsonV) -> Option<Seq<ScalarV>>
    decreases p, 1int,
{
    match p {
        JsonV::Arr(items) => match dec_seq(items) {
            Some(v) => if v.len() == 3 {
                Some(v)
            } else {
                None
            },
            None => None,
        },
        _ => None,
    }
}

/// A reference from the entry `k: p`.
pub open spec fn dec_tcref_entry(k: Seq<char>, p: JsonV) -> Option<TCRefV>
    decreases p, 5int,
{
    if k == TCREF_IF@ {
        match dec_triple(p) {
            Some(v) => match v[0] {
                ScalarV::Ref(c) => Some(TCRefV::If(c, v[1], v[2])),
                _ => None,
            },
            None => None,
        }
    } else if k == TCREF_COND@ {
        match p {
            JsonV::Arr(items) => if items.len() == 3 {
                match (dec_scalar(items[0]), dec_opdef(items[1]), dec_opdef(items[2])) {
                    (Some(ScalarV::Ref(c)), Some(a), Some(b)) => Some(TCRefV::Cond(c, a, b)),
                    _ => None,
                }
            } else {
                None
            },
            _ => None,
        }
    } else if k == TCREF_WHILE@ {
        match dec_triple(p) {
            Some(v) => Some(TCRefV::While(v[0], v[1], v[2])),
            None => None,
        }
    } else if k == TCREF_FOR_EACH@ {
        match dec_triple(p) {
            Some(v) => match v[2] {
                ScalarV::Value(ValueV::Str(n)) => if id_ok(n) {
                    Some(TCRefV::ForEach(v[0], v[1], n))
                } else {
                    None
                },
                _ => None,
            },
            None => None,
        }
    } else if starts_with(k, '$') {
        match dec_args(p) {
            Some(ArgsV::List(items)) if items.len() == 0 => match id_ref_form(k) {
                Some(x) => Some(TCRefV::Id(x)),
                None => None,
            },
            Some(args) => match subject_form(k) {
                Some(s) => match opref_from_args(s, args) {
                    Some(o) => Some(TCRefV::Op(o)),
                    None => None,
                },
                None => None,
            },
            None => None,
        }
    } else {
        match dec_opref_entry(k, p) {
            Some(o) => Some(TCRefV::Op(o)),
            None => None,
        }
    }
}

/// What the wire form `j` decodes to as a reference: an object, read by its
/// first entry.
pub open spec fn dec_tcref(j: JsonV) -> Option<TCRefV> {
    match j {
        JsonV::Obj(m) => if m.len() > 0 {
            dec_tcref_entry(m[0].0, m[0].1)
        } else {
            None
        },
        _ => None,
    }
}

/// A non-empty object read as a scalar.
pub open spec fn dec_obj(m: Seq<(Seq<char>, JsonV)>) -> Option<ScalarV>
    decreases m, 6int,
{
    let k = m[0].0;
    let p = m[0].1;
    if m.len() == 0 {
        None
    } else if starts_with(k, '/') {
        if is_value_label(k) {
            match dec_typed_value(k, p) {
                Some(v) => Some(ScalarV::Value(v)),
                None => None,
            }
        } else if opdef_type_of(k) is Some {
            match dec_opdef_payload(opdef_type_of(k)->0, p) {
                Some(d) => Some(ScalarV::Op(d)),
                None => None,
            }
        } else if is_ref_label(k) {
            match dec_tcref_entry(k, p) {
                Some(r) => Some(ScalarV::Ref(Box::new(r))),
                None => None,
            }
        } else {
            match dec_args(p) {
                Some(ArgsV::List(items)) if items.len() == 0 && link_valid(k) => Some(
                    ScalarV::Value(ValueV::Link(k)),
                ),
                Some(args) => match subject_form(k) {
                    Some(s) => match opref_from_args(s, args) {
                        Some(o) => Some(ScalarV::Ref(Box::new(TCRefV::Op(o)))),
                        None => None,
                    },
                    None => None,
                },
                None => None,
            }
        }
    } else if starts_with(k, '$') {
        match dec_tcref_entry(k, p) {
            Some(r) => Some(ScalarV::Ref(Box::new(r))),
            None => None,
        }
    } else {
        match dec_members(m) {
            Some(p) => Some(ScalarV::IdMap(p)),
            None => None,
        }
    }
}

// ---------------------------------------------------------------- well-formed values

/// A link that can stand as the key of a wire object: it starts with `/` and
/// is none of the labels.
pub open spec fn key_link_wf(l: Seq<char>) -> bool {
    link_valid(l) && starts_with(l, '/') && !is_reserved(l)
}

pub open spec fn value_wf(v: ValueV) -> bool {
    match v {
        ValueV::Link(l) => key_link_wf(l),
        _ => true,
    }
}

/// A subject that can stand as the key of a wire object.
pub open spec fn key_subject_wf(s: SubjectV) -> bool {
    match s {
        SubjectV::Link(l) => key_link_wf(l),
        SubjectV::Ref(_, _) => subject_wf(s),
    }
}

/// A scalar that the wire form carries without loss: identifiers are valid,
/// map keys ascend, and links that become object keys are neither labels nor
/// host-qualified.
pub open spec fn scalar_wf(s: ScalarV) -> bool
    decreases s,
{
    match s {
        ScalarV::Value(v) => value_wf(v),
        ScalarV::Ref(r) => tcref_wf(*r),
        ScalarV::Op(d) => opdef_wf(d),
        ScalarV::IdMap(p) => keys_ascend(p) && pairs_wf(p),
        ScalarV::Tuple(items) => seq_wf(items),
    }
}

pub open spec fn seq_wf(s: Seq<ScalarV>) -> bool
    decreases s,
{
    s.len() > 0 ==> seq_wf(s.subrange(0, s.len() - 1)) && scalar_wf(s[s.len() - 1])
}

/// Names that are identifiers, with well-formed values.
pub open spec fn pairs_wf(p: PairsV) -> bool
    decreases p,
{
    p.len() > 0 ==> pairs_wf(p.subrange(0, p.len() - 1)) && id_wf(p[p.len() - 1].0) && scalar_wf(
        p[p.len() - 1].1,
    )
}

pub open spec fn opdef_wf(d: OpDefV) -> bool
    decreases d,
{
    match d {
        OpDefV::Get(k, f) => id_wf(k) && pairs_wf(f),
        OpDefV::Put(k, v, f) => id_wf(k) && id_wf(v) && pairs_wf(f),
        OpDefV::Post(f) => pairs_wf(f),
        OpDefV::Delete(k, f) => id_wf(k) && pairs_wf(f),
    }
}

pub open spec fn opref_wf(o: OpRefV) -> bool
    decreases o,
{
    match o {
        OpRefV::Get(s, k) => key_subject_wf(s) && scalar_wf(k),
        OpRefV::Put(s, k, v) => key_subject_wf(s) && scalar_wf(k) && scalar_wf(v),
        OpRefV::Post(s, p) => key_subject_wf(s) && keys_ascend(p) && pairs_wf(p),
        OpRefV::Delete(s, k) => subject_wf(s) && scalar_wf(k),
    }
}

pub open spec fn tcref_wf(t: TCRefV) -> bool
    decreases t,
{
    match t {
        TCRefV::Op(o) => opref_wf(o),
        TCRefV::Id(x) => id_wf(x),
        TCRefV::If(c, a, b) => tcref_wf(*c) && scalar_wf(a) && scalar_wf(b),
        TCRefV::Cond(c, a, b) => tcref_wf(*c) && opdef_wf(a) && opdef_wf(b),
        TCRefV::While(c, f, s) => scalar_wf(c) && scalar_wf(f) && scalar_wf(s),
        TCRefV::ForEach(i, o, n) => scalar_wf(i) && scalar_wf(o) && id_wf(n),
    }
}

// ---------------------------------------------------------------- round trip

/// The control-flow labels are told apart, and none starts with `$`.
pub proof fn lemma_label_order()
    ensures
        TCREF_COND@ != TCREF_IF@,
        TCREF_WHILE@ != TCREF_IF@ && TCREF_WHILE@ != TCREF_COND@,
        TCREF_FOR_EACH@ != TCREF_IF@ && TCREF_FOR_EACH@ != TCREF_COND@ && TCREF_FOR_EACH@
            != TCREF_WHILE@,
        !starts_with(TCREF_IF@, '$') && !starts_with(TCREF_COND@, '$') && !starts_with(
            TCREF_WHILE@,
            '$',
        ) && !starts_with(TCREF_FOR_EACH@, '$'),
{
    lemma_labels();
}

/// What the labels are: each starts with `/`, and the decoder tells them apart.
proof fn lemma_labels()
    ensures
        forall|t: OpDefType| #[trigger] opdef_type_of(opdef_label(t)) == Some(t),
        forall|t: OpDefType| !is_value_label(#[trigger] opdef_label(t)),
        forall|t: OpDefType| starts_with(#[trigger] opdef_label(t), '/'),
        starts_with(TCREF_IF@, '/'),
        starts_with(TCREF_COND@, '/'),
        starts_with(TCREF_WHILE@, '/'),
        starts_with(TCREF_FOR_EACH@, '/'),
        starts_with(OPREF_DELETE@, '/'),
        !is_value_label(TCREF_IF@) && opdef_type_of(TCREF_IF@) is None && is_ref_label(TCREF_IF@),
        !is_value_label(TCREF_COND@) && opdef_type_of(TCREF_COND@) is None && is_ref_label(
            TCREF_COND@,
        ),
        !is_value_label(TCREF_WHILE@) && opdef_type_of(TCREF_WHILE@) is None && is_ref_label(
            TCREF_WHILE@,
        ),
        !is_value_label(TCREF_FOR_EACH@) && opdef_type_of(TCREF_FOR_EACH@) is None && is_ref_label(
            TCREF_FOR_EACH@,
        ),
        !is_value_label(OPREF_DELETE@) && opdef_type_of(OPREF_DELETE@) is None && is_ref_label(
            OPREF_DELETE@,
        ),
        TCREF_COND@ != TCREF_IF@,
        TCREF_WHILE@ != TCREF_IF@ && TCREF_WHILE@ != TCREF_COND@,
        TCREF_FOR_EACH@ != TCREF_IF@ && TCREF_FOR_EACH@ != TCREF_COND@ && TCREF_FOR_EACH@
            != TCREF_WHILE@,
        OPREF_DELETE@ != TCREF_IF@ && OPREF_DELETE@ != TCREF_COND@ && OPREF_DELETE@
            != TCREF_WHILE@ && OPREF_DELETE@ != TCREF_FOR_EACH@,
        OPREF_DELETE@ != OPREF_GET@ && OPREF_DELETE@ != OPREF_PUT@ && OPREF_DELETE@
            != OPREF_POST@,
        !starts_with(TCREF_IF@, '$') && !starts_with(TCREF_COND@, '$') && !starts_with(
            TCREF_WHILE@,
            '$',
        ) && !starts_with(TCREF_FOR_EACH@, '$'),
{
    reveal_strlit("/state/scalar/value/none");
    reveal_strlit("/state/scalar/value/number");
    reveal_strlit("/state/scalar/value/string");
    reveal_strlit("/state/scalar/value/link");
    reveal_strlit("/state/scalar/op/get");
    reveal_strlit("/state/scalar/op/put");
    reveal_strlit("/state/scalar/op/post");
    reveal_strlit("/state/scalar/op/delete");
    reveal_strlit("/state/scalar/ref/op/get");
    reveal_strlit("/state/scalar/ref/op/put");
    reveal_strlit("/state/scalar/ref/op/post");
    reveal_strlit("/state/scalar/ref/op/delete");
    reveal_strlit("/state/scalar/ref/if");
    reveal_strlit("/state/scalar/ref/cond");
    reveal_strlit("/state/scalar/ref/while");
    reveal_strlit("/state/scalar/ref/for_each");
    assert(VALUE_NONE@[14] == 'v' && VALUE_NUMBER@[14] == 'v' && VALUE_STRING@[14] == 'v'
        && VALUE_LINK@[14] == 'v');
    assert(OPDEF_GET@[14] == 'o' && OPDEF_PUT@[14] == 'o' && OPDEF_POST@[14] == 'o'
        && OPDEF_DELETE@[14] == 'o');
    assert(OPREF_GET@[14] == 'r' && OPREF_PUT@[14] == 'r' && OPREF_POST@[14] == 'r'
        && OPREF_DELETE@[14] == 'r');
    assert(TCREF_IF@[14] == 'r' && TCREF_COND@[14] == 'r' && TCREF_WHILE@[14] == 'r'
        && TCREF_FOR_EACH@[14] == 'r');
    assert(OPDEF_GET@[17] == 'g' && OPDEF_PUT@[18] == 'u' && OPDEF_POST@[18] == 'o'
        && OPDEF_DELETE@[17] == 'd' && OPDEF_PUT@[17] == 'p' && OPDEF_POST@[17] == 'p');
    assert(OPREF_GET@[18] == 'o' && OPREF_PUT@[18] == 'o' && OPREF_POST@[18] == 'o'
        && OPREF_DELETE@[18] == 'o');
    assert(OPREF_GET@[21] == 'g' && OPREF_PUT@[21] == 'p' && OPREF_POST@[21] == 'p'
        && OPREF_DELETE@[21] == 'd');
    assert(TCREF_IF@[18] == 'i' && TCREF_COND@[18] == 'c' && TCREF_WHILE@[18] == 'w'
        && TCREF_FOR_EACH@[18] == 'f');
    assert(TCREF_IF@[0] == '/' && TCREF_COND@[0] == '/' && TCREF_WHILE@[0] == '/'
        && TCREF_FOR_EACH@[0] == '/' && OPREF_DELETE@[0] == '/');
    assert(OPDEF_GET@[0] == '/' && OPDEF_PUT@[0] == '/' && OPDEF_POST@[0] == '/'
        && OPDEF_DELETE@[0] == '/');
    assert forall|t: OpDefType| #[trigger] opdef_type_of(opdef_label(t)) == Some(t) by {}
    assert forall|t: OpDefType| !is_value_label(#[trigger] opdef_label(t)) by {
        assert(opdef_label(t)[14] == 'o');
    }
}

proof fn lemma_enc_seq(s: Seq<ScalarV>)
    ensures
        enc_seq(s).len() == s.len(),
        forall|i: int| 0 <= i < s.len() ==> #[trigger] enc_seq(s)[i] == enc_scalar(s[i]),
    decreases s.len(),
{
    if s.len() > 0 {
        lemma_enc_seq(s.subrange(0, s.len() - 1));
    }
}

proof fn lemma_enc_members(p: PairsV)
    ensures
        enc_members(p).len() == p.len(),
        forall|i: int|
            0 <= i < p.len() ==> #[trigger] enc_members(p)[i] == (p[i].0, enc_scalar(p[i].1)),
    decreases p.len(),
{
    if p.len() > 0 {
        lemma_enc_members(p.subrange(0, p.len() - 1));
    }
}

proof fn lemma_enc_form(p: PairsV)
    ensures
        enc_form(p).len() == p.len(),
    decreases p.len(),
{
    if p.len() > 0 {
        lemma_enc_form(p.subrange(0, p.len() - 1));
    }
}

proof fn lemma_pairs_wf(p: PairsV)
    requires
        pairs_wf(p),
    ensures
        forall|i: int| 0 <= i < p.len() ==> id_wf(#[trigger] p[i].0) && scalar_wf(p[i].1),
    decreases p.len(),
{
    if p.len() > 0 {
        let q = p.subrange(0, p.len() - 1);
        lemma_pairs_wf(q);
        assert forall|i: int| 0 <= i < p.len() implies id_wf(#[trigger] p[i].0) && scalar_wf(p[i].1) by {
            if i < p.len() - 1 {
                assert(p[i] == q[i]);
            }
        }
    }
}

/// Decoding a list whose elements each decode.
proof fn lemma_dec_seq_of(s: Seq<JsonV>, out: Seq<ScalarV>)
    requires
        s.len() == out.len(),
        forall|i: int| 0 <= i < s.len() ==> dec_scalar(#[trigger] s[i]) == Some(out[i]),
    ensures
        dec_seq(s) == Some(out),
    decreases s.len(),
{
    if s.len() > 0 {
        let n = s.len() - 1;
        assert forall|i: int| 0 <= i < n implies dec_scalar(#[trigger] s.subrange(0, n)[i]) == Some(
            out.subrange(0, n)[i],
        ) by {
            assert(s.subrange(0, n)[i] == s[i]);
        }
        lemma_dec_seq_of(s.subrange(0, n), out.subrange(0, n));
        assert(out.subrange(0, n).push(out[n]) =~= out);
    } else {
        assert(out =~= Seq::<ScalarV>::empty());
    }
}

proof fn lemma_rt_seq(items: Seq<ScalarV>)
    requires
        seq_wf(items),
    ensures
        dec_seq(enc_seq(items)) == Some(items),
    decreases items, 0int,
{
    if items.len() == 0 {
        assert(items =~= Seq::<ScalarV>::empty());
    } else {
        let n = items.len() - 1;
        let pre = items.subrange(0, n);
        lemma_enc_seq(pre);
        lemma_rt_seq(pre);
        lemma_rt_scalar(items[n]);
        let e = enc_seq(items);
        assert(e.subrange(0, n) =~= enc_seq(pre));
        assert(pre.push(items[n]) =~= items);
    }
}

proof fn lemma_rt_members(p: PairsV)
    requires
        keys_ascend(p),
        pairs_wf(p),
    ensures
        dec_members(enc_members(p)) == Some(p),
    decreases p, 0int,
{
    if p.len() == 0 {
        assert(p =~= Seq::<(Seq<char>, ScalarV)>::empty());
    } else {
        let n = p.len() - 1;
        let pre = p.subrange(0, n);
        lemma_enc_members(pre);
        assert(keys_ascend(pre)) by {
            assert forall|i: int, j: int| 0 <= i < j < pre.len() implies seq_less(
                #[trigger] pre[i].0,
                #[trigger] pre[j].0,
            ) by {
                assert(pre[i] == p[i] && pre[j] == p[j]);
            }
        }
        lemma_rt_members(pre);
        lemma_rt_scalar(p[n].1);
        let e = enc_members(p);
        assert(e.subrange(0, n) =~= enc_members(pre));
        if n > 0 {
            assert(seq_less(pre[n - 1].0, p[n].0));
            if pre[n - 1].0 == p[n].0 {
                lemma_less_irreflexive(p[n].0);
            }
        }
        assert(pre.push((p[n].0, p[n].1)) =~= p);
    }
}

proof fn lemma_rt_form(p: PairsV)
    requires
        pairs_wf(p),
    ensures
        dec_form(enc_form(p)) == Some(p),
    decreases p, 0int,
{
    if p.len() == 0 {
        assert(p =~= Seq::<(Seq<char>, ScalarV)>::empty());
    } else {
        let n = p.len() - 1;
        let pre = p.subrange(0, n);
        lemma_enc_form(pre);
        lemma_rt_form(pre);
        lemma_rt_scalar(p[n].1);
        let e = enc_form(p);
        assert(e.subrange(0, n) =~= enc_form(pre));
        let pair = seq![JsonV::Str(p[n].0), enc_scalar(p[n].1)];
        assert(pair[0] == JsonV::Str(p[n].0));
        assert(pair[1] == enc_scalar(p[n].1));
        assert(pre.push((p[n].0, p[n].1)) =~= p);
    }
}

/// The verb of an op definition.
pub open spec fn opdef_type(d: OpDefV) -> OpDefType {
    match d {
        OpDefV::Get(..) => OpDefType::Get,
        OpDefV::Put(..) => OpDefType::Put,
        OpDefV::Post(..) => OpDefType::Post,
        OpDefV::Delete(..) => OpDefType::Delete,
    }
}

proof fn lemma_rt_opdef(d: OpDefV)
    requires
        opdef_wf(d),
    ensures
        enc_opdef(d) matches JsonV::Obj(m) && m.len() == 1 && m[0].0 == opdef_label(opdef_type(d))
            && dec_opdef_payload(opdef_type(d), m[0].1) == Some(d),
        dec_opdef(enc_opdef(d)) == Some(d),
    decreases d, 1int,
{
    lemma_labels();
    match d {
        OpDefV::Get(k, f) => {
            lemma_rt_form(f);
            let items = seq![JsonV::Str(k), JsonV::Arr(enc_form(f))];
            assert(items[0] == JsonV::Str(k) && items[1] == JsonV::Arr(enc_form(f)));
        },
        OpDefV::Put(k, v, f) => {
            lemma_rt_form(f);
            let items = seq![JsonV::Str(k), JsonV::Str(v), JsonV::Arr(enc_form(f))];
            assert(items[0] == JsonV::Str(k) && items[1] == JsonV::Str(v) && items[2] == JsonV::Arr(
                enc_form(f),
            ));
        },
        OpDefV::Post(f) => {
            lemma_rt_form(f);
        },
        OpDefV::Delete(k, f) => {
            lemma_rt_form(f);
            let items = seq![JsonV::Str(k), JsonV::Arr(enc_form(f))];
            assert(items[0] == JsonV::Str(k) && items[1] == JsonV::Arr(enc_form(f)));
        },
    }
    assert(opdef_type_of(opdef_label(opdef_type(d))) == Some(opdef_type(d)));
}

/// A scalar decodes to itself from its wire form.
proof fn lemma_rt_scalar(s: ScalarV)
    requires
        scalar_wf(s),
    ensures
        dec_scalar(enc_scalar(s)) == Some(s),
    decreases s, 2int,
{
    lemma_labels();
    match s {
        ScalarV::Value(v) => {
            if v is Link {
                lemma_rt_link(v->Link_0);
            }
        },
        ScalarV::Ref(r) => {
            lemma_rt_tcref(*r);
        },
        ScalarV::Op(d) => {
            lemma_rt_opdef(d);
            let m = enc_opdef(d)->Obj_0;
            assert(!is_value_label(m[0].0));
            assert(starts_with(m[0].0, '/'));
        },
        ScalarV::IdMap(p) => {
            lemma_rt_members(p);
            if p.len() == 0 {
                assert(p =~= Seq::<(Seq<char>, ScalarV)>::empty());
            } else {
                lemma_enc_members(p);
                lemma_pairs_wf(p);
                let k = p[0].0;
                assert(enc_members(p)[0].0 == k);
                assert(!starts_with(k, '/')) by {
                    if starts_with(k, '/') {
                        assert(k.contains(k[0]));
                    }
                }
                assert(!starts_with(k, '$')) by {
                    if starts_with(k, '$') {
                        assert(k.contains(k[0]));
                    }
                }
            }
        },
        ScalarV::Tuple(items) => {
            lemma_rt_seq(items);
        },
    }
}

/// A three-element list whose elements decode.
proof fn lemma_dec_triple(x: JsonV, y: JsonV, z: JsonV, a: ScalarV, b: ScalarV, c: ScalarV)
    requires
        dec_scalar(x) == Some(a),
        dec_scalar(y) == Some(b),
        dec_scalar(z) == Some(c),
    ensures
        dec_triple(JsonV::Arr(seq![x, y, z])) == Some(seq![a, b, c]),
{
    let s = seq![x, y, z];
    let out = seq![a, b, c];
    assert(s[0] == x && s[1] == y && s[2] == z);
    assert(out[0] == a && out[1] == b && out[2] == c);
    lemma_dec_seq_of(s, out);
}

/// A link value decodes to itself from its wire form.
proof fn lemma_rt_link(l: Seq<char>)
    requires
        key_link_wf(l),
    ensures
        dec_scalar(enc_value(ValueV::Link(l))) == Some(ScalarV::Value(ValueV::Link(l))),
{
    let m = seq![(l, JsonV::Arr(Seq::<JsonV>::empty()))];
    assert(m.len() == 1 && m[0].0 == l && m[0].1 == JsonV::Arr(Seq::<JsonV>::empty()));
    assert(dec_seq(Seq::<JsonV>::empty()) == Some(Seq::<ScalarV>::empty()));
    assert(dec_args(m[0].1) == Some(ArgsV::List(Seq::<ScalarV>::empty())));
    assert(dec_obj(m) == Some(ScalarV::Value(ValueV::Link(l))));
}

/// A reference decodes to itself from its wire form, read as a reference or
/// as a scalar.
proof fn lemma_rt_tcref(t: TCRefV)
    requires
        tcref_wf(t),
    ensures
        dec_tcref(enc_tcref(t)) == Some(t),
        dec_scalar(enc_tcref(t)) == Some(ScalarV::Ref(Box::new(t))),
    decreases t, 1int,
{
    match t {
        TCRefV::Op(o) => lemma_rt_opref(o),
        TCRefV::Id(x) => lemma_rt_id(x),
        TCRefV::Cond(..) => lemma_rt_cond(t),
        _ => lemma_rt_flow(t),
    }
}

proof fn lemma_rt_id(x: Seq<char>)
    requires
        id_wf(x),
    ensures
        dec_tcref(enc_tcref(TCRefV::Id(x))) == Some(TCRefV::Id(x)),
        dec_scalar(enc_tcref(TCRefV::Id(x))) == Some(ScalarV::Ref(Box::new(TCRefV::Id(x)))),
{
    lemma_labels();
    let k = id_ref_text(x);
    assert(k[0] == '$');
    assert(k.drop_first() =~= x);
    let e = Seq::<JsonV>::empty();
    assert(dec_seq(e) == Some(Seq::<ScalarV>::empty()));
    assert(dec_tcref_entry(k, JsonV::Arr(e)) == Some(TCRefV::Id(x)));
}

/// The decoder hands a wire entry under a control-flow label to the
/// reference decoder.
proof fn lemma_scalar_of_ref_label(k: Seq<char>, p: JsonV)
    requires
        is_ref_label(k),
    ensures
        dec_scalar(single(k, p)) == match dec_tcref_entry(k, p) {
            Some(r) => Some(ScalarV::Ref(Box::new(r))),
            None => None,
        },
{
    lemma_labels();
    let m = seq![(k, p)];
    assert(m.len() == 1 && m[0].0 == k && m[0].1 == p);
    assert(starts_with(k, '/'));
    assert(!is_value_label(k));
    assert(opdef_type_of(k) is None);
}

proof fn lemma_rt_cond(t: TCRefV)
    requires
        tcref_wf(t),
        t is Cond,
    ensures
        dec_tcref(enc_tcref(t)) == Some(t),
        dec_scalar(enc_tcref(t)) == Some(ScalarV::Ref(Box::new(t))),
    decreases t, 0int,
{
    lemma_labels();
    if let TCRefV::Cond(c, a, b) = t {
        lemma_rt_tcref(*c);
        lemma_rt_opdef(a);
        lemma_rt_opdef(b);
        let items = seq![enc_tcref(*c), enc_opdef(a), enc_opdef(b)];
        assert(items[0] == enc_tcref(*c) && items[1] == enc_opdef(a) && items[2] == enc_opdef(b));
        assert(dec_tcref_entry(TCREF_COND@, JsonV::Arr(items)) == Some(t));
        lemma_scalar_of_ref_label(TCREF_COND@, JsonV::Arr(items));
    }
}

proof fn lemma_rt_flow(t: TCRefV)
    requires
        tcref_wf(t),
        t is If || t is While || t is ForEach,
    ensures
        dec_tcref(enc_tcref(t)) == Some(t),
        dec_scalar(enc_tcref(t)) == Some(ScalarV::Ref(Box::new(t))),
    decreases t, 0int,
{
    match t {
        TCRefV::If(c, a, b) => {
            lemma_rt_tcref(*c);
            lemma_rt_scalar(a);
            lemma_rt_scalar(b);
            lemma_rt_if(*c, a, b);
        },
        TCRefV::While(c, f, s) => {
            lemma_rt_scalar(c);
            lemma_rt_scalar(f);
            lemma_rt_scalar(s);
            lemma_rt_while(c, f, s);
        },
        TCRefV::ForEach(i, o, n) => {
            lemma_rt_scalar(i);
            lemma_rt_scalar(o);
            lemma_rt_for_each(i, o, n);
        },
        _ => {},
    }
}

proof fn lemma_rt_if(c: TCRefV, a: ScalarV, b: ScalarV)
    requires
        dec_scalar(enc_tcref(c)) == Some(ScalarV::Ref(Box::new(c))),
        dec_scalar(enc_scalar(a)) == Some(a),
        dec_scalar(enc_scalar(b)) == Some(b),
    ensures
        dec_tcref(enc_tcref(TCRefV::If(Box::new(c), a, b))) == Some(TCRefV::If(Box::new(c), a, b)),
        dec_scalar(enc_tcref(TCRefV::If(Box::new(c), a, b))) == Some(
            ScalarV::Ref(Box::new(TCRefV::If(Box::new(c), a, b))),
        ),
{
    lemma_labels();
    lemma_dec_triple(enc_tcref(c), enc_scalar(a), enc_scalar(b), ScalarV::Ref(Box::new(c)), a, b);
    let p = JsonV::Arr(seq![enc_tcref(c), enc_scalar(a), enc_scalar(b)]);
    assert(dec_tcref_entry(TCREF_IF@, p) == Some(TCRefV::If(Box::new(c), a, b)));
    lemma_scalar_of_ref_label(TCREF_IF@, p);
}

proof fn lemma_rt_while(c: ScalarV, f: ScalarV, s: ScalarV)
    requires
        dec_scalar(enc_scalar(c)) == Some(c),
        dec_scalar(enc_scalar(f)) == Some(f),
        dec_scalar(enc_scalar(s)) == Some(s),
    ensures
        dec_tcref(enc_tcref(TCRefV::While(c, f, s))) == Some(TCRefV::While(c, f, s)),
        dec_scalar(enc_tcref(TCRefV::While(c, f, s))) == Some(
            ScalarV::Ref(Box::new(TCRefV::While(c, f, s))),
        ),
{
    lemma_labels();
    lemma_dec_triple(enc_scalar(c), enc_scalar(f), enc_scalar(s), c, f, s);
    let p = JsonV::Arr(seq![enc_scalar(c), enc_scalar(f), enc_scalar(s)]);
    assert(dec_tcref_entry(TCREF_WHILE@, p) == Some(TCRefV::While(c, f, s)));
    lemma_scalar_of_ref_label(TCREF_WHILE@, p);
}

proof fn lemma_rt_for_each(i: ScalarV, o: ScalarV, n: Seq<char>)
    requires
        dec_scalar(enc_scalar(i)) == Some(i),
        dec_scalar(enc_scalar(o)) == Some(o),
        id_wf(n),
    ensures
        dec_tcref(enc_tcref(TCRefV::ForEach(i, o, n))) == Some(TCRefV::ForEach(i, o, n)),
        dec_scalar(enc_tcref(TCRefV::ForEach(i, o, n))) == Some(
            ScalarV::Ref(Box::new(TCRefV::ForEach(i, o, n))),
        ),
{
    lemma_labels();
    lemma_dec_triple(enc_scalar(i), enc_scalar(o), JsonV::Str(n), i, o, ScalarV::Value(ValueV::Str(n)));
    let p = JsonV::Arr(seq![enc_scalar(i), enc_scalar(o), JsonV::Str(n)]);
    assert(dec_tcref_entry(TCREF_FOR_EACH@, p) == Some(TCRefV::ForEach(i, o, n)));
    lemma_scalar_of_ref_label(TCREF_FOR_EACH@, p);
}

/// Facts on the key of an op reference's wire form.
proof fn lemma_key_subject(s: SubjectV)
    requires
        key_subject_wf(s),
    ensures
        subject_form(subject_text(s)) == Some(s),
        starts_with(subject_text(s), '/') ==> !is_reserved(subject_text(s)),
        starts_with(subject_text(s), '/') || starts_with(subject_text(s), '$'),
{
    match s {
        SubjectV::Link(l) => {},
        SubjectV::Ref(id, path) => {
            lemma_subject_round_trip(s);
            assert(subject_text(s)[0] == '$');
        },
    }
}

proof fn lemma_rt_opref(o: OpRefV)
    requires
        opref_wf(o),
    ensures
        dec_tcref(enc_opref(o)) == Some(TCRefV::Op(o)),
        dec_scalar(enc_opref(o)) == Some(ScalarV::Ref(Box::new(TCRefV::Op(o)))),
    decreases o, 1int,
{
    lemma_labels();
    match o {
        OpRefV::Get(s, k) => {
            lemma_key_subject(s);
            lemma_rt_scalar(k);
            let args = seq![enc_scalar(k)];
            assert(args[0] == enc_scalar(k));
            lemma_dec_seq_of(args, seq![k]);
        },
        OpRefV::Put(s, k, v) => {
            lemma_key_subject(s);
            lemma_rt_scalar(k);
            lemma_rt_scalar(v);
            let args = seq![enc_scalar(k), enc_scalar(v)];
            assert(args[0] == enc_scalar(k) && args[1] == enc_scalar(v));
            lemma_dec_seq_of(args, seq![k, v]);
        },
        OpRefV::Post(s, p) => {
            lemma_key_subject(s);
            lemma_rt_members(p);
        },
        OpRefV::Delete(s, k) => {
            lemma_subject_round_trip(s);
            lemma_rt_scalar(k);
            let items = seq![JsonV::Str(subject_text(s)), enc_scalar(k)];
            assert(items[0] == JsonV::Str(subject_text(s)) && items[1] == enc_scalar(k));
        },
    }
}

// ---------------------------------------------------------------- laws

/// Round trip: a well-formed scalar decodes from its wire form to itself.
pub proof fn scalar_round_trip(s: ScalarV)
    requires
        scalar_wf(s),
    ensures
        dec_scalar(enc_scalar(s)) == Some(s),
{
    lemma_rt_scalar(s);
}

/// A subject that can stand as the key of a reference read on its own: a
/// scoped reference, or a link that is not a label, host-qualified links
/// included.
pub open spec fn top_subject_wf(s: SubjectV) -> bool {
    match s {
        SubjectV::Link(l) => link_valid(l) && !starts_with(l, '$') && !is_reserved(l),
        SubjectV::Ref(_, _) => subject_wf(s),
    }
}

/// A reference that its own wire form carries without loss. At the top, an
/// op reference may name any subject that [`top_subject_wf`] allows; below
/// it, values are well-formed scalars.
pub open spec fn tcref_top_wf(t: TCRefV) -> bool {
    match t {
        TCRefV::Op(o) => match o {
            OpRefV::Get(s, k) => top_subject_wf(s) && scalar_wf(k),
            OpRefV::Put(s, k, v) => top_subject_wf(s) && scalar_wf(k) && scalar_wf(v),
            OpRefV::Post(s, p) => top_subject_wf(s) && keys_ascend(p) && pairs_wf(p),
            OpRefV::Delete(s, k) => subject_wf(s) && scalar_wf(k),
        },
        _ => tcref_wf(t),
    }
}

/// A host-qualified link subject at the top of a reference.
proof fn lemma_rt_host_opref(o: OpRefV)
    requires
        tcref_top_wf(TCRefV::Op(o)),
        !(o is Delete),
        match o {
            OpRefV::Get(s, _) => s is Link && !starts_with(subject_text(s), '/'),
            OpRefV::Put(s, _, _) => s is Link && !starts_with(subject_text(s), '/'),
            OpRefV::Post(s, _) => s is Link && !starts_with(subject_text(s), '/'),
            OpRefV::Delete(_, _) => false,
        },
    ensures
        dec_tcref(enc_opref(o)) == Some(TCRefV::Op(o)),
{
    lemma_labels();
    let k = match o {
        OpRefV::Get(s, _) => subject_text(s),
        OpRefV::Put(s, _, _) => subject_text(s),
        OpRefV::Post(s, _) => subject_text(s),
        OpRefV::Delete(s, _) => subject_text(s),
    };
    assert(k.len() > 0) by {
        if k.len() == 0 {
            assert(k =~= Seq::<char>::empty());
            assert(crate::ident::without_trailing_slash(k) =~= Seq::<char>::empty());
        }
    }
    assert(k != TCREF_IF@ && k != TCREF_COND@ && k != TCREF_WHILE@ && k != TCREF_FOR_EACH@) by {
        assert(TCREF_IF@[0] == '/' && TCREF_COND@[0] == '/' && TCREF_WHILE@[0] == '/'
            && TCREF_FOR_EACH@[0] == '/');
    }
    match o {
        OpRefV::Get(s, x) => {
            lemma_rt_scalar(x);
            let args = seq![enc_scalar(x)];
            assert(args[0] == enc_scalar(x));
            lemma_dec_seq_of(args, seq![x]);
        },
        OpRefV::Put(s, x, y) => {
            lemma_rt_scalar(x);
            lemma_rt_scalar(y);
            let args = seq![enc_scalar(x), enc_scalar(y)];
            assert(args[0] == enc_scalar(x) && args[1] == enc_scalar(y));
            lemma_dec_seq_of(args, seq![x, y]);
        },
        OpRefV::Post(s, p) => {
            lemma_rt_members(p);
        },
        OpRefV::Delete(_, _) => {},
    }
}

/// Round trip: a reference decodes from its wire form to itself, wherever
/// [`tcref_top_wf`] holds; an op reference on a host-qualified link
/// included.
pub proof fn tcref_round_trip(t: TCRefV)
    requires
        tcref_top_wf(t),
    ensures
        dec_tcref(enc_tcref(t)) == Some(t),
{
    match t {
        TCRefV::Op(o) => {
            let host = match o {
                OpRefV::Get(s, _) => s is Link && !starts_with(subject_text(s), '/'),
                OpRefV::Put(s, _, _) => s is Link && !starts_with(subject_text(s), '/'),
                OpRefV::Post(s, _) => s is Link && !starts_with(subject_text(s), '/'),
                OpRefV::Delete(_, _) => false,
            };
            if host {
                lemma_rt_host_opref(o);
            } else {
                assert(opref_wf(o));
                lemma_rt_tcref(t);
            }
        },
        _ => lemma_rt_tcref(t),
    }
}

/// Round trip: a well-formed op definition decodes from its wire form to
/// itself.
pub proof fn opdef_round_trip(d: OpDefV)
    requires
        opdef_wf(d),
    ensures
        dec_opdef(enc_opdef(d)) == Some(d),
{
    lemma_rt_opdef(d);
}

/// Canonical form: encoding what the wire form of a well-formed scalar
/// decodes to gives that wire form again.
pub proof fn scalar_canonical_form(s: ScalarV)
    requires
        scalar_wf(s),
    ensures
        dec_scalar(enc_scalar(s)) is Some,
        enc_scalar(dec_scalar(enc_scalar(s))->0) == enc_scalar(s),
{
    lemma_rt_scalar(s);
}

/// Decoder tolerance: an object whose first key is a label, a link or a
/// scoped reference is read from that entry alone; the keys after it are
/// ignored, as a scalar, as a reference and as an op definition.
pub proof fn extra_keys_ignored(k: Seq<char>, p: JsonV, extra: Seq<(Seq<char>, JsonV)>)
    requires
        starts_with(k, '/') || starts_with(k, '$'),
    ensures
        dec_scalar(JsonV::Obj(seq![(k, p)] + extra)) == dec_scalar(JsonV::Obj(seq![(k, p)])),
        dec_tcref(JsonV::Obj(seq![(k, p)] + extra)) == dec_tcref(JsonV::Obj(seq![(k, p)])),
        dec_opdef(JsonV::Obj(seq![(k, p)] + extra)) == dec_opdef(JsonV::Obj(seq![(k, p)])),
{
    let a = seq![(k, p)] + extra;
    let b = seq![(k, p)];
    assert(a[0] == b[0]);
    assert(a.len() > 0 && b.len() > 0);
}

} // verus!
