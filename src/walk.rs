//! Pre-order walks over scalars and op definitions.

use vstd::prelude::*;

use crate::ident::Id;
use crate::scalar::{
    form_of, lemma_pairs_view, lemma_scalars_view, pairs_view, scalar_view, scalars_view, OpDef,
    PairsV, Scalar, ScalarV, TCRef, TCRefV,
};

verus! {

/// A scalar and, after it, the walks of its children in order: the values
/// of a map by ascending key, the items of a tuple. References and op
/// definitions are leaves of the walk.
pub open spec fn walk_of(s: ScalarV) -> Seq<ScalarV>
    decreases s, 1int,
{
    seq![s] + match s {
        ScalarV::IdMap(p) => walk_pairs(p),
        ScalarV::Tuple(items) => walk_seq(items),
        _ => Seq::empty(),
    }
}

/// The walks of a sequence of scalars, one after another.
pub open spec fn walk_seq(items: Seq<ScalarV>) -> Seq<ScalarV>
    decreases items, 0int,
{
    if items.len() == 0 {
        Seq::empty()
    } else {
        walk_seq(items.subrange(0, items.len() - 1)) + walk_of(items[items.len() - 1])
    }
}

/// The walks of the values of a sequence of bindings, one after another.
pub open spec fn walk_pairs(p: PairsV) -> Seq<ScalarV>
    decreases p, 0int,
{
    if p.len() == 0 {
        Seq::empty()
    } else {
        walk_pairs(p.subrange(0, p.len() - 1)) + walk_of(p[p.len() - 1].1)
    }
}

/// The references among a sequence of scalars, in order.
pub open spec fn refs_of(s: Seq<ScalarV>) -> Seq<TCRefV>
    decreases s.len(),
{
    if s.len() == 0 {
        Seq::empty()
    } else {
        let rest = refs_of(s.subrange(0, s.len() - 1));
        match s[s.len() - 1] {
            ScalarV::Ref(r) => rest.push(*r),
            _ => rest,
        }
    }
}

/// The values behind a sequence of borrowed scalars.
pub open spec fn borrowed_view(s: Seq<&Scalar>) -> Seq<ScalarV> {
    s.map_values(|x: &Scalar| scalar_view(*x))
}

/// The values behind a sequence of borrowed references.
pub open spec fn borrowed_refs_view(s: Seq<&TCRef>) -> Seq<TCRefV> {
    s.map_values(|x: &TCRef| x@)
}

fn append<'a>(out: &mut Vec<&'a Scalar>, more: Vec<&'a Scalar>)
    ensures
        borrowed_view(final(out)@) == borrowed_view(old(out)@) + borrowed_view(more@),
{
    let ghost start = out@;
    let mut i: usize = 0;
    while i < more.len()
        invariant
            i <= more@.len(),
            out@ == start + more@.subrange(0, i as int),
        decreases more@.len() - i,
    {
        out.push(more[i]);
        proof {
            assert(more@.subrange(0, i as int + 1) =~= more@.subrange(0, i as int).push(more@[i as int]));
        }
        i = i + 1;
    }
    proof {
        assert(more@.subrange(0, more@.len() as int) =~= more@);
        assert(borrowed_view(out@) =~= borrowed_view(start) + borrowed_view(more@));
    }
}

fn walk_items<'a>(items: &'a Vec<Scalar>) -> (r: Vec<&'a Scalar>)
    ensures
        borrowed_view(r@) == walk_seq(scalars_view(items@)),
    decreases items, 0int,
{
    let mut out: Vec<&'a Scalar> = Vec::new();
    let mut i: usize = 0;
    proof {
        assert(scalars_view(items@.subrange(0, 0)) =~= Seq::<ScalarV>::empty());
        assert(borrowed_view(out@) =~= Seq::<ScalarV>::empty());
    }
    while i < items.len()
        invariant
            i <= items@.len(),
            borrowed_view(out@) == walk_seq(scalars_view(items@.subrange(0, i as int))),
        decreases items@.len() - i,
    {
        let w = walk_scalar(&items[i]);
        append(&mut out, w);
        proof {
            let pre = items@.subrange(0, i as int);
            let next = items@.subrange(0, i as int + 1);
            assert(next.subrange(0, i as int) =~= pre);
            lemma_scalars_view(pre);
            lemma_scalars_view(next);
            assert(scalars_view(next).subrange(0, i as int) =~= scalars_view(pre));
        }
        i = i + 1;
    }
    proof {
        assert(items@.subrange(0, items@.len() as int) =~= items@);
    }
    out
}

fn walk_values<'a>(p: &'a Vec<(Id, Scalar)>) -> (r: Vec<&'a Scalar>)
    ensures
        borrowed_view(r@) == walk_pairs(pairs_view(p@)),
    decreases p, 0int,
{
    let mut out: Vec<&'a Scalar> = Vec::new();
    let mut i: usize = 0;
    proof {
        assert(pairs_view(p@.subrange(0, 0)) =~= Seq::<(Seq<char>, ScalarV)>::empty());
        assert(borrowed_view(out@) =~= Seq::<ScalarV>::empty());
    }
    while i < p.len()
        invariant
            i <= p@.len(),
            borrowed_view(out@) == walk_pairs(pairs_view(p@.subrange(0, i as int))),
        decreases p@.len() - i,
    {
        let w = walk_scalar(&p[i].1);
        append(&mut out, w);
        proof {
            let pre = p@.subrange(0, i as int);
            let next = p@.subrange(0, i as int + 1);
            assert(next.subrange(0, i as int) =~= pre);
            lemma_pairs_view(pre);
            lemma_pairs_view(next);
            assert(pairs_view(next).subrange(0, i as int) =~= pairs_view(pre));
        }
        i = i + 1;
    }
    proof {
        assert(p@.subrange(0, p@.len() as int) =~= p@);
    }
    out
}

fn walk_scalar<'a>(s: &'a Scalar) -> (r: Vec<&'a Scalar>)
    ensures
        borrowed_view(r@) == walk_of(s@),
    decreases s, 1int,
{
    let mut out: Vec<&'a Scalar> = Vec::new();
    out.push(s);
    proof {
        assert(borrowed_view(out@) =~= seq![s@]);
    }
    match s {
        Scalar::IdMap(m) => {
            let w = walk_values(&m.entries);
            append(&mut out, w);
        },
        Scalar::Tuple(items) => {
            let w = walk_items(items);
            append(&mut out, w);
        },
        _ => {
            proof {
                assert(borrowed_view(out@) =~= seq![s@] + Seq::<ScalarV>::empty());
            }
        },
    }
    out
}

impl Scalar {
    /// This scalar and everything below it, in pre-order.
    pub fn walk(&self) -> (r: Vec<&Scalar>)
        ensures
            borrowed_view(r@) == walk_of(self@),
    {
        walk_scalar(self)
    }

    /// The references met in [`Scalar::walk`], in order.
    pub fn walk_tcref(&self) -> (r: Vec<&TCRef>)
        ensures
            borrowed_refs_view(r@) == refs_of(walk_of(self@)),
    {
        let all = walk_scalar(self);
        let ghost w = borrowed_view(all@);
        let mut out: Vec<&TCRef> = Vec::new();
        let mut i: usize = 0;
        proof {
            assert(w.subrange(0, 0) =~= Seq::<ScalarV>::empty());
            assert(borrowed_refs_view(out@) =~= Seq::<TCRefV>::empty());
        }
        while i < all.len()
            invariant
                i <= all@.len(),
                w == borrowed_view(all@),
                borrowed_refs_view(out@) == refs_of(w.subrange(0, i as int)),
            decreases all@.len() - i,
        {
            let x: &Scalar = all[i];
            proof {
                assert(w.subrange(0, i as int + 1).subrange(0, i as int) =~= w.subrange(0, i as int));
                assert(w[i as int] == scalar_view(*x));
            }
            match x {
                Scalar::Ref(r) => {
                    let ghost before = out@;
                    out.push(&**r);
                    proof {
                        assert(borrowed_refs_view(out@) =~= borrowed_refs_view(before).push(r@));
                    }
                },
                _ => {},
            }
            i = i + 1;
        }
        proof {
            assert(w.subrange(0, all@.len() as int) =~= w);
        }
        out
    }
}

impl OpDef {
    /// The walks of the values of the bindings, one after another.
    pub fn walk_scalars(&self) -> (r: Vec<&Scalar>)
        ensures
            borrowed_view(r@) == walk_pairs(form_of(self@)),
    {
        walk_values(self.form())
    }
}

} // verus!
