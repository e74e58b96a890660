//! The scalar algebra: leaf values, references, operation definitions, maps
//! and tuples, with their mathematical values.

use vstd::prelude::*;

use crate::ident::{Id, IdRef, Link};
use crate::map::IdMap;
use crate::subject::{Subject, SubjectV};

verus! {

/// A number as the wire carries it.
#[derive(Clone, Copy, Debug, PartialEq, Eq, Structural)]
pub enum Number {
    Bool(bool),
    Int(i64),
    UInt(u64),
}

/// A leaf value: nothing, a number, a string or a link.
#[derive(Clone, Debug, PartialEq)]
pub enum Value {
    Null,
    Number(Number),
    String(String),
    Link(Link),
}

/// Any value of the intermediate representation.
#[derive(Debug, PartialEq)]
pub enum Scalar {
    Value(Value),
    Ref(Box<TCRef>),
    Op(OpDef),
    IdMap(IdMap<Scalar>),
    Tuple(Vec<Scalar>),
}

/// The data defining a reference to a GET op.
pub type GetRef = (Subject, Scalar);

/// The data defining a reference to a PUT op.
pub type PutRef = (Subject, Scalar, Scalar);

/// The data defining a reference to a POST op.
pub type PostRef = (Subject, IdMap<Scalar>);

/// The data defining a reference to a DELETE op.
pub type DeleteRef = (Subject, Scalar);

/// A reference to an operation on a subject.
#[derive(Debug, PartialEq)]
pub enum OpRef {
    Get(GetRef),
    Put(PutRef),
    Post(PostRef),
    Delete(DeleteRef),
}

/// The verb of an operation definition.
#[derive(Clone, Copy, Debug, PartialEq, Eq, Structural)]
pub enum OpDefType {
    Get,
    Put,
    Post,
    Delete,
}

/// A GET definition: the key's name and the bindings.
pub type GetOp = (Id, Vec<(Id, Scalar)>);

/// A PUT definition: the key's and the value's names and the bindings.
pub type PutOp = (Id, Id, Vec<(Id, Scalar)>);

/// A POST definition: the bindings.
pub type PostOp = Vec<(Id, Scalar)>;

/// A DELETE definition: the key's name and the bindings.
pub type DeleteOp = (Id, Vec<(Id, Scalar)>);

/// An inline operation definition: an ordered list of let-bindings.
#[derive(Debug, PartialEq)]
pub enum OpDef {
    Get(GetOp),
    Put(PutOp),
    Post(PostOp),
    Delete(DeleteOp),
}

/// A reference to be resolved by the kernel.
#[derive(Debug, PartialEq)]
pub enum TCRef {
    Op(OpRef),
    Id(IdRef),
    If(Box<IfRef>),
    Cond(Box<CondOp>),
    While(Box<While>),
    ForEach(Box<ForEach>),
}

/// `if cond { then_branch } else { or_else }`, both branches values.
#[derive(Debug, PartialEq)]
pub struct IfRef {
    pub cond: TCRef,
    pub then_branch: Scalar,
    pub or_else: Scalar,
}

/// A lazy conditional: only the selected branch is executed.
#[derive(Debug, PartialEq)]
pub struct CondOp {
    pub cond: TCRef,
    pub then_branch: OpDef,
    pub or_else: OpDef,
}

/// Resolve `closure` over `state` while `cond` holds.
#[derive(Debug, PartialEq)]
pub struct While {
    pub cond: Scalar,
    pub closure: Scalar,
    pub state: Scalar,
}

/// Apply `op` to each of `items`, each bound to `item_name`.
#[derive(Debug, PartialEq)]
pub struct ForEach {
    pub items: Scalar,
    pub op: Scalar,
    pub item_name: Id,
}

/// The mathematical value of a [`Value`].
pub enum ValueV {
    Null,
    Number(Number),
    Str(Seq<char>),
    Link(Seq<char>),
}

/// Let-bindings or map entries: names with values.
pub type PairsV = Seq<(Seq<char>, ScalarV)>;

/// The mathematical value of a [`Scalar`].
pub enum ScalarV {
    Value(ValueV),
    Ref(Box<TCRefV>),
    Op(OpDefV),
    IdMap(PairsV),
    Tuple(Seq<ScalarV>),
}

/// The mathematical value of an [`OpRef`].
pub enum OpRefV {
    Get(SubjectV, ScalarV),
    Put(SubjectV, ScalarV, ScalarV),
    Post(SubjectV, PairsV),
    Delete(SubjectV, ScalarV),
}

/// The mathematical value of an [`OpDef`].
pub enum OpDefV {
    Get(Seq<char>, PairsV),
    Put(Seq<char>, Seq<char>, PairsV),
    Post(PairsV),
    Delete(Seq<char>, PairsV),
}

/// The mathematical value of a [`TCRef`].
pub enum TCRefV {
    Op(OpRefV),
    Id(Seq<char>),
    If(Box<TCRefV>, ScalarV, ScalarV),
    Cond(Box<TCRefV>, OpDefV, OpDefV),
    While(ScalarV, ScalarV, ScalarV),
    ForEach(ScalarV, ScalarV, Seq<char>),
}

pub open spec fn value_view(v: Value) -> ValueV {
    match v {
        Value::Null => ValueV::Null,
        Value::Number(n) => ValueV::Number(n),
        Value::String(s) => ValueV::Str(s@),
        Value::Link(l) => ValueV::Link(l@),
    }
}

pub open(crate) spec fn scalar_view(s: Scalar) -> ScalarV
    decreases s,
{
    match s {
        Scalar::Value(v) => ScalarV::Value(value_view(v)),
        Scalar::Ref(r) => ScalarV::Ref(Box::new(tcref_view(*r))),
        Scalar::Op(d) => ScalarV::Op(opdef_view(d)),
        Scalar::IdMap(m) => ScalarV::IdMap(pairs_view(m.entries@)),
        Scalar::Tuple(v) => ScalarV::Tuple(scalars_view(v@)),
    }
}

pub open spec fn scalars_view(s: Seq<Scalar>) -> Seq<ScalarV>
    decreases s,
{
    if s.len() == 0 {
        Seq::empty()
    } else {
        scalars_view(s.subrange(0, s.len() - 1)).push(scalar_view(s[s.len() - 1]))
    }
}

pub open spec fn pairs_view(s: Seq<(Id, Scalar)>) -> PairsV
    decreases s,
{
    if s.len() == 0 {
        Seq::empty()
    } else {
        pairs_view(s.subrange(0, s.len() - 1)).push(
            (s[s.len() - 1].0@, scalar_view(s[s.len() - 1].1)),
        )
    }
}

pub open spec fn opdef_view(d: OpDef) -> OpDefV
    decreases d,
{
    match d {
        OpDef::Get(g) => OpDefV::Get(g.0@, pairs_view(g.1@)),
        OpDef::Put(p) => OpDefV::Put(p.0@, p.1@, pairs_view(p.2@)),
        OpDef::Post(f) => OpDefV::Post(pairs_view(f@)),
        OpDef::Delete(x) => OpDefV::Delete(x.0@, pairs_view(x.1@)),
    }
}

pub open(crate) spec fn opref_view(o: OpRef) -> OpRefV
    decreases o,
{
    match o {
        OpRef::Get(g) => OpRefV::Get(g.0@, scalar_view(g.1)),
        OpRef::Put(p) => OpRefV::Put(p.0@, scalar_view(p.1), scalar_view(p.2)),
        OpRef::Post(p) => OpRefV::Post(p.0@, pairs_view(p.1.entries@)),
        OpRef::Delete(x) => OpRefV::Delete(x.0@, scalar_view(x.1)),
    }
}

pub open spec fn tcref_view(t: TCRef) -> TCRefV
    decreases t,
{
    match t {
        TCRef::Op(o) => TCRefV::Op(opref_view(o)),
        TCRef::Id(i) => TCRefV::Id(i@),
        TCRef::If(b) => TCRefV::If(
            Box::new(tcref_view(b.cond)),
            scalar_view(b.then_branch),
            scalar_view(b.or_else),
        ),
        TCRef::Cond(b) => TCRefV::Cond(
            Box::new(tcref_view(b.cond)),
            opdef_view(b.then_branch),
            opdef_view(b.or_else),
        ),
        TCRef::While(b) => TCRefV::While(
            scalar_view(b.cond),
            scalar_view(b.closure),
            scalar_view(b.state),
        ),
        TCRef::ForEach(b) => TCRefV::ForEach(
            scalar_view(b.items),
            scalar_view(b.op),
            b.item_name@,
        ),
    }
}

impl View for Value {
    type V = ValueV;

    open spec fn view(&self) -> ValueV {
        value_view(*self)
    }
}

impl View for Scalar {
    type V = ScalarV;

    open spec fn view(&self) -> ScalarV {
        scalar_view(*self)
    }
}

impl View for OpRef {
    type V = OpRefV;

    open spec fn view(&self) -> OpRefV {
        opref_view(*self)
    }
}

impl View for OpDef {
    type V = OpDefV;

    open spec fn view(&self) -> OpDefV {
        opdef_view(*self)
    }
}

impl View for TCRef {
    type V = TCRefV;

    open spec fn view(&self) -> TCRefV {
        tcref_view(*self)
    }
}

pub proof fn lemma_scalars_view(s: Seq<Scalar>)
    ensures
        scalars_view(s).len() == s.len(),
        forall|i: int| 0 <= i < s.len() ==> #[trigger] scalars_view(s)[i] == scalar_view(s[i]),
    decreases s.len(),
{
    if s.len() > 0 {
        lemma_scalars_view(s.subrange(0, s.len() - 1));
    }
}

pub proof fn lemma_pairs_view(s: Seq<(Id, Scalar)>)
    ensures
        pairs_view(s).len() == s.len(),
        forall|i: int|
            0 <= i < s.len() ==> #[trigger] pairs_view(s)[i] == (s[i].0@, scalar_view(s[i].1)),
    decreases s.len(),
{
    if s.len() > 0 {
        lemma_pairs_view(s.subrange(0, s.len() - 1));
    }
}

} // verus!

verus! {

/// The name bound by the last binding of a form, if any.
pub open spec fn last_name(f: PairsV) -> Option<Seq<char>> {
    if f.len() == 0 {
        None
    } else {
        Some(f[f.len() - 1].0)
    }
}

/// The bindings of an op definition.
pub open spec fn form_of(d: OpDefV) -> PairsV {
    match d {
        OpDefV::Get(_, f) => f,
        OpDefV::Put(_, _, f) => f,
        OpDefV::Post(f) => f,
        OpDefV::Delete(_, f) => f,
    }
}

impl OpDef {
    /// The ordered let-bindings.
    pub fn form(&self) -> (r: &Vec<(Id, Scalar)>)
        ensures
            pairs_view(r@) == form_of(self@),
    {
        match self {
            OpDef::Get((_, form)) => form,
            OpDef::Put((_, _, form)) => form,
            OpDef::Post(form) => form,
            OpDef::Delete((_, form)) => form,
        }
    }

    /// The name of the last binding, or `None` for an empty form.
    pub fn last_id(&self) -> (r: Option<&Id>)
        ensures
            r is None <==> last_name(form_of(self@)) is None,
            r matches Some(id) ==> last_name(form_of(self@)) == Some(id@),
    {
        let form = self.form();
        proof {
            lemma_pairs_view(form@);
        }
        if form.len() == 0 {
            None
        } else {
            Some(&form[form.len() - 1].0)
        }
    }

    /// The verb, which labels the definition on the wire.
    pub fn class(&self) -> (r: OpDefType)
        ensures
            r == (match self@ {
                OpDefV::Get(..) => OpDefType::Get,
                OpDefV::Put(..) => OpDefType::Put,
                OpDefV::Post(..) => OpDefType::Post,
                OpDefV::Delete(..) => OpDefType::Delete,
            }),
    {
        match self {
            OpDef::Get(_) => OpDefType::Get,
            OpDef::Put(_) => OpDefType::Put,
            OpDef::Post(_) => OpDefType::Post,
            OpDef::Delete(_) => OpDefType::Delete,
        }
    }
}

impl IfRef {
    pub fn new(cond: TCRef, then_branch: Scalar, or_else: Scalar) -> (r: IfRef)
        ensures
            r.cond@ == cond@,
            r.then_branch@ == then_branch@,
            r.or_else@ == or_else@,
    {
        IfRef { cond, then_branch, or_else }
    }
}

impl CondOp {
    pub fn new(cond: TCRef, then_branch: OpDef, or_else: OpDef) -> (r: CondOp)
        ensures
            r.cond@ == cond@,
            r.then_branch@ == then_branch@,
            r.or_else@ == or_else@,
    {
        CondOp { cond, then_branch, or_else }
    }
}

impl While {
    pub fn new(cond: Scalar, closure: Scalar, state: Scalar) -> (r: While)
        ensures
            r.cond@ == cond@,
            r.closure@ == closure@,
            r.state@ == state@,
    {
        While { cond, closure, state }
    }
}

impl ForEach {
    pub fn new(items: Scalar, op: Scalar, item_name: Id) -> (r: ForEach)
        ensures
            r.items@ == items@,
            r.op@ == op@,
            r.item_name@ == item_name@,
    {
        ForEach { items, op, item_name }
    }
}

impl Scalar {
    /// The empty value.
    pub fn default_value() -> (r: Scalar)
        ensures
            r@ == ScalarV::Value(ValueV::Null),
    {
        Scalar::Value(Value::Null)
    }

    /// A reference as a scalar.
    pub fn from_ref(r: TCRef) -> (s: Scalar)
        ensures
            s@ == ScalarV::Ref(Box::new(r@)),
    {
        Scalar::Ref(Box::new(r))
    }

    /// An unsigned number as a scalar.
    pub fn from_u64(n: u64) -> (s: Scalar)
        ensures
            s@ == ScalarV::Value(ValueV::Number(Number::UInt(n))),
    {
        Scalar::Value(Value::Number(Number::UInt(n)))
    }
}


impl OpDefType {
    /// The wire label of the verb.
    pub fn label(&self) -> (r: &'static str)
        ensures
            r@ == crate::codec::opdef_label(*self),
    {
        match self {
            OpDefType::Get => crate::codec::OPDEF_GET,
            OpDefType::Put => crate::codec::OPDEF_PUT,
            OpDefType::Post => crate::codec::OPDEF_POST,
            OpDefType::Delete => crate::codec::OPDEF_DELETE,
        }
    }
}

impl Scalar {
    /// A leaf value as a scalar.
    pub fn from_value(v: Value) -> (s: Scalar)
        ensures
            s@ == ScalarV::Value(v@),
    {
        Scalar::Value(v)
    }

    /// An op definition as a scalar.
    pub fn from_opdef(d: OpDef) -> (s: Scalar)
        ensures
            s@ == ScalarV::Op(d@),
    {
        Scalar::Op(d)
    }
}

} // verus!
