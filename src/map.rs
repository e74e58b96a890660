//! A map keyed by identifiers, kept in ascending order of its keys.

use vstd::prelude::*;

use crate::error::{Error, ErrorKind};
use crate::ident::Id;
use crate::text::{concat, text_eq, lemma_less_irreflexive, lemma_less_total, lemma_less_transitive, seq_less, text_less};

verus! {

/// Whether the keys of `s` strictly ascend.
pub open spec fn keys_ascend<X>(s: Seq<(Seq<char>, X)>) -> bool {
    forall|i: int, j: int| 0 <= i < j < s.len() ==> seq_less(#[trigger] s[i].0, #[trigger] s[j].0)
}

/// `s` with the entry `(k, v)` placed among its ascending keys, or nothing
/// where `k` is a key of `s` already.
pub open spec fn insert_sorted<X>(s: Seq<(Seq<char>, X)>, k: Seq<char>, v: X) -> Option<
    Seq<(Seq<char>, X)>,
>
    decreases s.len(),
{
    if s.len() == 0 {
        Some(seq![(k, v)])
    } else {
        let last = s[s.len() - 1];
        if last.0 == k {
            None
        } else if seq_less(last.0, k) {
            Some(s.push((k, v)))
        } else {
            match insert_sorted(s.subrange(0, s.len() - 1), k, v) {
                Some(r) => Some(r.push(last)),
                None => None,
            }
        }
    }
}

/// The index of the entry with key `k`, or -1.
pub open spec fn key_index<X>(s: Seq<(Seq<char>, X)>, k: Seq<char>) -> int
    decreases s.len(),
{
    if s.len() == 0 {
        -1
    } else if s[s.len() - 1].0 == k {
        s.len() - 1
    } else {
        key_index(s.subrange(0, s.len() - 1), k)
    }
}

/// A map from identifiers to values, its entries in ascending order of key.
#[derive(Debug, PartialEq)]
pub struct IdMap<T> {
    /// The entries, their keys strictly ascending (see [`IdMap::wf`]).
    pub(crate) entries: Vec<(Id, T)>,
}

/// The keys of a sequence of entries as text, with their values.
pub open spec fn entries_view<T>(s: Seq<(Id, T)>) -> Seq<(Seq<char>, T)> {
    s.map_values(|e: (Id, T)| (e.0@, e.1))
}

impl<T> IdMap<T> {
    /// The entries, keys as text.
    pub open(crate) spec fn pairs(&self) -> Seq<(Seq<char>, T)> {
        entries_view(self.entries@)
    }

    /// The keys strictly ascend.
    pub open spec fn wf(&self) -> bool {
        keys_ascend(self.pairs())
    }

    pub fn new() -> (r: IdMap<T>)
        ensures
            r.wf(),
            r.pairs() == Seq::<(Seq<char>, T)>::empty(),
    {
        let r = IdMap { entries: Vec::new() };
        assert(r.pairs() =~= Seq::<(Seq<char>, T)>::empty());
        r
    }

    /// The map with one entry.
    pub fn one(key: Id, value: T) -> (r: IdMap<T>)
        ensures
            r.wf(),
            r.pairs() == seq![(key@, value)],
    {
        let ghost kv = key@;
        let r = IdMap { entries: vec![(key, value)] };
        assert(r.pairs() =~= seq![(kv, value)]);
        r
    }

    pub fn len(&self) -> (r: usize)
        ensures
            r == self.pairs().len(),
    {
        self.entries.len()
    }

    pub fn is_empty(&self) -> (r: bool)
        ensures
            r == (self.pairs().len() == 0),
    {
        self.entries.len() == 0
    }

    /// Finds the index of `key`.
    fn find(&self, key: &str) -> (r: Option<usize>)
        ensures
            r is None ==> key_index(self.pairs(), key@) == -1,
            r matches Some(i) ==> key_index(self.pairs(), key@) == i && i < self.pairs().len(),
    {
        let mut i: usize = self.entries.len();
        assert(self.pairs().subrange(0, i as int) =~= self.pairs());
        while i > 0
            invariant
                i <= self.entries.len(),
                key_index(self.pairs(), key@) == key_index(self.pairs().subrange(0, i as int), key@),
            decreases i,
        {
            let same = text_eq(self.entries[i - 1].0.as_str(), key);
            if same {
                proof {
                    lemma_key_index_last(self.pairs().subrange(0, i as int), key@);
                }
                return Some(i - 1);
            }
            proof {
                assert(self.pairs().subrange(0, i as int).subrange(0, i - 1) =~= self.pairs().subrange(0, i - 1));
            }
            i = i - 1;
        }
        proof {
            assert(self.pairs().subrange(0, 0) =~= Seq::<(Seq<char>, T)>::empty());
        }
        None
    }

    /// Whether `key` is a key of the map.
    pub fn contains_key(&self, key: &str) -> (r: bool)
        ensures
            r == (key_index(self.pairs(), key@) >= 0),
    {
        self.find(key).is_some()
    }

    /// The value at `key`, if any.
    pub fn get(&self, key: &str) -> (r: Option<&T>)
        ensures
            r is None <==> key_index(self.pairs(), key@) == -1,
            r matches Some(v) ==> *v == self.pairs()[key_index(self.pairs(), key@)].1,
    {
        match self.find(key) {
            Some(i) => Some(&self.entries[i].1),
            None => None,
        }
    }

    /// Adds an entry; fails with `BadRequest`, leaving the map as it was,
    /// where `key` is a key of the map already.
    pub fn insert(&mut self, key: Id, value: T) -> (r: Result<(), Error>)
        requires
            old(self).wf(),
        ensures
            final(self).wf(),
            r is Ok <==> insert_sorted(old(self).pairs(), key@, value) is Some,
            r is Ok ==> final(self).pairs() == insert_sorted(old(self).pairs(), key@, value)->0,
            r is Err ==> final(self).pairs() == old(self).pairs(),
            r matches Err(e) ==> e.kind() == ErrorKind::BadRequest,
    {
        let ghost s = self.pairs();
        let mut i: usize = self.entries.len();
        while i > 0 && text_less(key.as_str(), self.entries[i - 1].0.as_str())
            invariant
                i <= self.entries.len(),
                self.pairs() == s,
                self.wf(),
                forall|j: int| i <= j < s.len() ==> seq_less(key@, #[trigger] s[j].0),
            decreases i,
        {
            i = i - 1;
        }
        if i > 0 && text_eq(self.entries[i - 1].0.as_str(), key.as_str()) {
            proof {
                lemma_insert_sorted_dup(s, key@, value, i as int - 1);
            }
            return Err(Error::bad_request(concat("duplicate key: ", key.as_str())));
        }
        proof {
            if i > 0 {
                lemma_less_total(s[i - 1].0, key@);
            }
            lemma_insert_sorted_at(s, key@, value, i as int);
        }
        let ghost kv = key@;
        self.entries.insert(i, (key, value));
        proof {
            assert(self.pairs() =~= s.subrange(0, i as int).push((kv, value)) + s.subrange(i as int, s.len() as int));
            lemma_ascend_insert(s, kv, value, i as int);
        }
        Ok(())
    }

    /// Removes and returns the value at `key`, if any.
    pub fn remove(&mut self, key: &str) -> (r: Option<T>)
        requires
            old(self).wf(),
        ensures
            final(self).wf(),
            r is None <==> key_index(old(self).pairs(), key@) == -1,
            r is Some ==> key_index(old(self).pairs(), key@) >= 0,
            r is None ==> final(self).pairs() == old(self).pairs(),
            r matches Some(v) ==> v == old(self).pairs()[key_index(old(self).pairs(), key@)].1
                && final(self).pairs() == old(self).pairs().remove(key_index(old(self).pairs(), key@)),
    {
        match self.find(key) {
            None => None,
            Some(i) => {
                let ghost s = self.pairs();
                let (_, v) = self.entries.remove(i);
                proof {
                    assert(self.pairs() =~= s.remove(i as int));
                    assert forall|a: int, b: int| 0 <= a < b < self.pairs().len() implies seq_less(
                        #[trigger] self.pairs()[a].0,
                        #[trigger] self.pairs()[b].0,
                    ) by {
                        let a1 = if a < i { a } else { a + 1 };
                        let b1 = if b < i { b } else { b + 1 };
                        assert(self.pairs()[a] == s[a1]);
                        assert(self.pairs()[b] == s[b1]);
                    }
                }
                Some(v)
            },
        }
    }

    /// Removes and returns the parameter `name`, if present; fails with
    /// `BadRequest` where `name` is not an identifier.
    pub fn optional(&mut self, name: &str) -> (r: Result<Option<T>, Error>)
        requires
            old(self).wf(),
        ensures
            final(self).wf(),
            r is Err <==> !crate::ident::id_ok(name@),
            r matches Err(e) ==> e.kind() == ErrorKind::BadRequest && final(self).pairs() == old(self).pairs(),
            r matches Ok(None) ==> key_index(old(self).pairs(), name@) == -1
                && final(self).pairs() == old(self).pairs(),
            r matches Ok(Some(v)) ==> key_index(old(self).pairs(), name@) >= 0
                && v == old(self).pairs()[key_index(old(self).pairs(), name@)].1
                && final(self).pairs() == old(self).pairs().remove(key_index(old(self).pairs(), name@)),
    {
        match Id::parse(name) {
            Ok(id) => Ok(self.remove(id.as_str())),
            Err(e) => Err(e),
        }
    }

    /// Removes and returns the parameter `name`; fails with `BadRequest` where
    /// `name` is not an identifier and with `NotFound` where it is absent.
    pub fn require(&mut self, name: &str) -> (r: Result<T, Error>)
        requires
            old(self).wf(),
        ensures
            final(self).wf(),
            r matches Err(e) ==> final(self).pairs() == old(self).pairs() && (
                if crate::ident::id_ok(name@) {
                    e.kind() == ErrorKind::NotFound && key_index(old(self).pairs(), name@) == -1
                } else {
                    e.kind() == ErrorKind::BadRequest
                }),
            r matches Ok(v) ==> crate::ident::id_ok(name@) && key_index(old(self).pairs(), name@) >= 0
                && v == old(self).pairs()[key_index(old(self).pairs(), name@)].1
                && final(self).pairs() == old(self).pairs().remove(key_index(old(self).pairs(), name@)),
            crate::ident::id_ok(name@) && key_index(old(self).pairs(), name@) >= 0 ==> r is Ok,
    {
        match Id::parse(name) {
            Ok(id) => match self.remove(id.as_str()) {
                Some(v) => Ok(v),
                None => Err(Error::new(ErrorKind::NotFound, concat("missing parameter: ", name))),
            },
            Err(e) => Err(e),
        }
    }

    /// Removes and returns the parameter `name`, which must be present.
    pub fn expect(&mut self, name: &str) -> (r: T)
        requires
            old(self).wf(),
            key_index(old(self).pairs(), name@) >= 0,
        ensures
            final(self).wf(),
            r == old(self).pairs()[key_index(old(self).pairs(), name@)].1,
            final(self).pairs() == old(self).pairs().remove(key_index(old(self).pairs(), name@)),
    {
        self.remove(name).unwrap()
    }

    /// Succeeds where the map is empty; fails with `Unexpected` otherwise.
    pub fn expect_empty(self) -> (r: Result<(), Error>)
        ensures
            r is Ok <==> self.pairs().len() == 0,
            r matches Err(e) ==> e.kind() == ErrorKind::Unexpected,
    {
        if self.entries.len() == 0 {
            Ok(())
        } else {
            Err(Error::new(ErrorKind::Unexpected, "unexpected parameters".to_owned()))
        }
    }

    /// The entries, in ascending order of key.
    pub fn into_inner(self) -> (r: Vec<(Id, T)>)
        ensures
            entries_view(r@) == self.pairs(),
    {
        self.entries
    }
}

proof fn lemma_key_index_last<X>(s: Seq<(Seq<char>, X)>, k: Seq<char>)
    requires
        s.len() > 0,
        s[s.len() - 1].0 == k,
    ensures
        key_index(s, k) == s.len() - 1,
{
}

proof fn lemma_insert_sorted_dup<X>(s: Seq<(Seq<char>, X)>, k: Seq<char>, v: X, i: int)
    requires
        0 <= i < s.len(),
        s[i].0 == k,
        forall|j: int| i < j < s.len() ==> seq_less(k, #[trigger] s[j].0),
    ensures
        insert_sorted(s, k, v) is None,
    decreases s.len(),
{
    if i < s.len() - 1 {
        lemma_less_irreflexive(k);
        lemma_less_not_sym(k, s[s.len() - 1].0);
        let t = s.subrange(0, s.len() - 1);
        assert forall|j: int| i < j < t.len() implies seq_less(k, #[trigger] t[j].0) by {
            assert(t[j] == s[j]);
        }
        lemma_insert_sorted_dup(t, k, v, i);
    }
}

proof fn lemma_insert_sorted_at<X>(s: Seq<(Seq<char>, X)>, k: Seq<char>, v: X, i: int)
    requires
        0 <= i <= s.len(),
        i > 0 ==> seq_less(s[i - 1].0, k),
        forall|j: int| i <= j < s.len() ==> seq_less(k, #[trigger] s[j].0),
    ensures
        insert_sorted(s, k, v) == Some(s.subrange(0, i).push((k, v)) + s.subrange(i, s.len() as int)),
    decreases s.len(),
{
    if s.len() == 0 {
        assert(s.subrange(0, i).push((k, v)) + s.subrange(i, s.len() as int) =~= seq![(k, v)]);
    } else if i == s.len() {
        assert(s.subrange(0, i).push((k, v)) + s.subrange(i, s.len() as int) =~= s.push((k, v)));
        lemma_less_irreflexive(k);
    } else {
        let last = s[s.len() - 1];
        lemma_less_irreflexive(k);
        lemma_less_not_sym(k, last.0);
        let t = s.subrange(0, s.len() - 1);
        assert forall|j: int| i <= j < t.len() implies seq_less(k, #[trigger] t[j].0) by {
            assert(t[j] == s[j]);
        }
        lemma_insert_sorted_at(t, k, v, i);
        assert(t.subrange(0, i).push((k, v)) + t.subrange(i, t.len() as int) == (s.subrange(0, i).push((k, v)) + s.subrange(i, s.len() as int)).subrange(0, s.len() as int)) by {
            assert(t.subrange(0, i).push((k, v)) + t.subrange(i, t.len() as int) =~= (s.subrange(0, i).push((k, v)) + s.subrange(i, s.len() as int)).subrange(0, s.len() as int));
        }
        assert((t.subrange(0, i).push((k, v)) + t.subrange(i, t.len() as int)).push(last) =~= s.subrange(0, i).push((k, v)) + s.subrange(i, s.len() as int));
    }
}

proof fn lemma_ascend_insert<X>(s: Seq<(Seq<char>, X)>, k: Seq<char>, v: X, i: int)
    requires
        0 <= i <= s.len(),
        keys_ascend(s),
        i > 0 ==> seq_less(s[i - 1].0, k),
        forall|j: int| i <= j < s.len() ==> seq_less(k, #[trigger] s[j].0),
    ensures
        keys_ascend(s.subrange(0, i).push((k, v)) + s.subrange(i, s.len() as int)),
{
    let r = s.subrange(0, i).push((k, v)) + s.subrange(i, s.len() as int);
    assert forall|a: int, b: int| 0 <= a < b < r.len() implies seq_less(#[trigger] r[a].0, #[trigger] r[b].0) by {
        if a < i && b < i {
            assert(r[a] == s[a] && r[b] == s[b]);
        } else if a < i && b == i {
            assert(r[a] == s[a]);
            if a < i - 1 {
                lemma_less_transitive(s[a].0, s[i - 1].0, k);
            }
        } else if a < i {
            assert(r[a] == s[a] && r[b] == s[b - 1]);
        } else if a == i {
            assert(r[b] == s[b - 1]);
        } else {
            assert(r[a] == s[a - 1] && r[b] == s[b - 1]);
        }
    }
}

proof fn lemma_less_not_sym(a: Seq<char>, b: Seq<char>)
    requires
        seq_less(a, b),
    ensures
        !seq_less(b, a),
{
    if seq_less(b, a) {
        lemma_less_transitive(a, b, a);
        lemma_less_irreflexive(a);
    }
}

} // verus!
