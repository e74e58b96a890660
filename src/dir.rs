//! The directory router: a tree from path segments to handlers.

use vstd::prelude::*;
use vstd::multiset::Multiset;

use crate::error::{Error, ErrorKind};
use crate::ident::Id;
use crate::ident::id_ok;
use crate::subject::{ids_view, path_text, split_slash};
use crate::text::{
    chars_of, concat, lemma_less_irreflexive, lemma_less_total, lemma_less_transitive, seq_less,
    text_eq, text_less, text_of,
};

verus! {

/// Whether `a` is a prefix of `b`, `b` itself included.
pub open spec fn is_prefix(a: Seq<Seq<char>>, b: Seq<Seq<char>>) -> bool {
    a.len() <= b.len() && b.subrange(0, a.len() as int) == a
}

/// Whether a multiset of routes can be mounted: every path is non-empty, no
/// route comes twice, and no path is a prefix of another route's path.
pub open spec fn mount_ok<H>(m: Multiset<(Seq<Seq<char>>, H)>) -> bool {
    &&& forall|a: (Seq<Seq<char>>, H)| #[trigger] m.contains(a) ==> a.0.len() > 0 && m.count(a) == 1
    &&& forall|a: (Seq<Seq<char>>, H), b: (Seq<Seq<char>>, H)|
        #[trigger] m.contains(a) && #[trigger] m.contains(b) && a != b ==> !is_prefix(a.0, b.0)
}

/// The handler that a multiset of routes mounts at `path`, if any.
pub open spec fn route_in<H>(m: Multiset<(Seq<Seq<char>>, H)>, path: Seq<Seq<char>>) -> Option<H> {
    if exists|h: H| m.contains((path, h)) {
        Some(choose|h: H| m.contains((path, h)))
    } else {
        None
    }
}

/// The routes of a list, as a multiset of paths with their handlers.
pub open spec fn routes_multiset<H>(routes: Seq<(Vec<Id>, H)>) -> Multiset<(Seq<Seq<char>>, H)> {
    routes.map_values(|r: (Vec<Id>, H)| (ids_view(r.0@), r.1)).to_multiset()
}

/// A node of the router.
#[derive(Debug)]
pub enum DirEntry<H> {
    Dir(Box<Dir<H>>),
    Handler(H),
}

/// A tree from path segments to handlers. No two handlers share a path, no
/// handler lies below another, and the root holds none.
#[derive(Debug)]
pub struct Dir<H> {
    entries: Vec<(Id, DirEntry<H>)>,
}

/// The entry under key `k`, the last one where keys repeat.
pub closed spec fn entry_of<H>(s: Seq<(Id, DirEntry<H>)>, k: Seq<char>) -> Option<DirEntry<H>>
    decreases s.len(),
{
    if s.len() == 0 {
        None
    } else if s[s.len() - 1].0@ == k {
        Some(s[s.len() - 1].1)
    } else {
        entry_of(s.subrange(0, s.len() - 1), k)
    }
}

/// The handler of `d` at `path`, if any.
pub closed spec fn lookup<H>(d: Dir<H>, path: Seq<Seq<char>>) -> Option<H>
    decreases path.len(),
{
    if path.len() == 0 {
        None
    } else {
        match entry_of(d.entries@, path[0]) {
            Some(DirEntry::Handler(h)) => if path.len() == 1 {
                Some(h)
            } else {
                None
            },
            Some(DirEntry::Dir(sub)) => lookup(*sub, path.drop_first()),
            None => None,
        }
    }
}

closed spec fn keys_distinct<H>(s: Seq<(Id, DirEntry<H>)>) -> bool {
    forall|i: int, j: int| 0 <= i < j < s.len() ==> s[i].0@ != s[j].0@
}

closed spec fn entries_wf<H>(s: Seq<(Id, DirEntry<H>)>) -> bool
    decreases s,
{
    s.len() > 0 ==> entries_wf(s.subrange(0, s.len() - 1)) && match s[s.len() - 1].1 {
        DirEntry::Dir(sub) => dir_wf(*sub) && exists|q: Seq<Seq<char>>| #[trigger]
            lookup(*sub, q) is Some,
        DirEntry::Handler(_) => true,
    }
}

/// The keys of the siblings strictly ascend.
closed spec fn keys_sorted<H>(s: Seq<(Id, DirEntry<H>)>) -> bool {
    forall|i: int, j: int| 0 <= i < j < s.len() ==> seq_less(#[trigger] s[i].0@, #[trigger] s[j].0@)
}

closed spec fn dir_wf<H>(d: Dir<H>) -> bool
    decreases d,
{
    keys_sorted(d.entries@) && keys_distinct(d.entries@) && entries_wf(d.entries@)
}

/// A node that may stand in a router: a handler, or a well-formed directory
/// that holds at least one handler.
closed spec fn entry_ok<H>(e: DirEntry<H>) -> bool {
    match e {
        DirEntry::Dir(sub) => dir_wf(*sub) && exists|q: Seq<Seq<char>>| #[trigger] lookup(*sub, q) is Some,
        DirEntry::Handler(_) => true,
    }
}

proof fn lemma_entries_wf_all<H>(s: Seq<(Id, DirEntry<H>)>)
    ensures
        entries_wf(s) == forall|j: int| 0 <= j < s.len() ==> entry_ok(#[trigger] s[j].1),
    decreases s.len(),
{
    if s.len() > 0 {
        let t = s.subrange(0, s.len() - 1);
        lemma_entries_wf_all(t);
        if forall|j: int| 0 <= j < s.len() ==> entry_ok(#[trigger] s[j].1) {
            assert forall|j: int| 0 <= j < t.len() implies entry_ok(#[trigger] t[j].1) by {
                assert(t[j] == s[j]);
                assert(entry_ok(s[j].1));
            }
            assert(entry_ok(s[s.len() - 1].1));
        }
        if entries_wf(s) {
            assert forall|j: int| 0 <= j < s.len() implies entry_ok(#[trigger] s[j].1) by {
                if j < s.len() - 1 {
                    assert(t[j] == s[j]);
                    assert(entry_ok(t[j].1));
                }
            }
        }
    }
}

proof fn lemma_sorted_distinct<H>(s: Seq<(Id, DirEntry<H>)>)
    requires
        keys_sorted(s),
    ensures
        keys_distinct(s),
{
    assert forall|i: int, j: int| 0 <= i < j < s.len() implies s[i].0@ != s[j].0@ by {
        if s[i].0@ == s[j].0@ {
            lemma_less_irreflexive(s[i].0@);
        }
    }
}

proof fn lemma_entries_wf<H>(s: Seq<(Id, DirEntry<H>)>, i: int)
    requires
        entries_wf(s),
        0 <= i < s.len(),
    ensures
        s[i].1 matches DirEntry::Dir(sub) ==> dir_wf(*sub) && exists|q: Seq<Seq<char>>|
            #[trigger] lookup(*sub, q) is Some,
    decreases s.len(),
{
    if i < s.len() - 1 {
        lemma_entries_wf(s.subrange(0, s.len() - 1), i);
    }
}

proof fn lemma_entries_wf_update<H>(s: Seq<(Id, DirEntry<H>)>, i: int, x: (Id, DirEntry<H>))
    requires
        entries_wf(s),
        0 <= i < s.len(),
        x.1 matches DirEntry::Dir(sub) ==> dir_wf(*sub) && exists|q: Seq<Seq<char>>|
            #[trigger] lookup(*sub, q) is Some,
    ensures
        entries_wf(s.update(i, x)),
    decreases s.len(),
{
    let t = s.subrange(0, s.len() - 1);
    if i < s.len() - 1 {
        lemma_entries_wf_update(t, i, x);
        assert(s.update(i, x).subrange(0, s.len() - 1) =~= t.update(i, x));
    } else {
        assert(s.update(i, x).subrange(0, s.len() - 1) =~= t);
    }
}

proof fn lemma_entry_of_index<H>(s: Seq<(Id, DirEntry<H>)>, i: int)
    requires
        keys_distinct(s),
        0 <= i < s.len(),
    ensures
        entry_of(s, s[i].0@) == Some(s[i].1),
    decreases s.len(),
{
    if i < s.len() - 1 {
        let t = s.subrange(0, s.len() - 1);
        lemma_entry_of_index(t, i);
    }
}

proof fn lemma_entry_of_absent<H>(s: Seq<(Id, DirEntry<H>)>, k: Seq<char>)
    requires
        forall|j: int| 0 <= j < s.len() ==> s[j].0@ != k,
    ensures
        entry_of(s, k) is None,
    decreases s.len(),
{
    if s.len() > 0 {
        lemma_entry_of_absent(s.subrange(0, s.len() - 1), k);
    }
}

proof fn lemma_entry_of_update<H>(s: Seq<(Id, DirEntry<H>)>, i: int, e: DirEntry<H>, k: Seq<char>)
    requires
        keys_distinct(s),
        0 <= i < s.len(),
    ensures
        entry_of(s.update(i, (s[i].0, e)), k) == if k == s[i].0@ {
            Some(e)
        } else {
            entry_of(s, k)
        },
    decreases s.len(),
{
    let u = s.update(i, (s[i].0, e));
    let t = s.subrange(0, s.len() - 1);
    if i < s.len() - 1 {
        assert(u.subrange(0, s.len() - 1) =~= t.update(i, (t[i].0, e)));
        lemma_entry_of_update(t, i, e, k);
        if k == s[i].0@ {
            assert(u[s.len() - 1].0@ != k);
        }
    } else {
        assert(u.subrange(0, s.len() - 1) =~= t);
    }
}

/// The index of the entry under key `k`, if any.
fn find_entry<H>(s: &Vec<(Id, DirEntry<H>)>, k: &Id) -> (r: Option<usize>)
    ensures
        r matches Some(i) ==> i < s@.len() && s@[i as int].0@ == k@,
        r is None ==> forall|j: int| 0 <= j < s@.len() ==> s@[j].0@ != k@,
{
    let mut i: usize = 0;
    while i < s.len()
        invariant
            i <= s.len(),
            forall|j: int| 0 <= j < i ==> s@[j].0@ != k@,
        decreases s.len() - i,
    {
        if text_eq(s[i].0.as_str(), k.as_str()) {
            return Some(i);
        }
        i = i + 1;
    }
    None
}

/// Whether `p` can be mounted in `d`: no handler of `d` lies on a prefix of
/// `p`, and none below it.
pub closed spec fn free_in<H>(d: Dir<H>, p: Seq<Seq<char>>) -> bool {
    forall|q: Seq<Seq<char>>| #[trigger] lookup(d, q) is Some ==> !is_prefix(q, p) && !is_prefix(p, q)
}

impl<H> Dir<H> {
    /// The router is well formed.
    pub closed spec fn wf(&self) -> bool {
        dir_wf(*self)
    }

    /// The handler at `path`, if any.
    pub closed spec fn handler_at(&self, path: Seq<Seq<char>>) -> Option<H> {
        lookup(*self, path)
    }

    /// An empty router.
    pub fn new() -> (r: Dir<H>)
        ensures
            r.wf(),
            forall|p: Seq<Seq<char>>| #[trigger] r.handler_at(p) is None,
    {
        let r = Dir { entries: Vec::new() };
        proof {
            assert forall|p: Seq<Seq<char>>| #[trigger] r.handler_at(p) is None by {
                if p.len() > 0 {
                    lemma_entry_of_absent(r.entries@, p[0]);
                }
            }
        }
        r
    }

}

proof fn lemma_prefix_cons(k: Seq<char>, a: Seq<Seq<char>>, b: Seq<Seq<char>>)
    ensures
        is_prefix(seq![k] + a, seq![k] + b) == is_prefix(a, b),
{
    let x = seq![k] + a;
    let y = seq![k] + b;
    if is_prefix(a, b) {
        assert(y.subrange(0, x.len() as int) =~= x);
    }
    if is_prefix(x, y) {
        assert(b.subrange(0, a.len() as int) =~= y.subrange(0, x.len() as int).drop_first());
        assert(x.drop_first() =~= a);
    }
}

proof fn lemma_cons_split(q: Seq<Seq<char>>)
    requires
        q.len() > 0,
    ensures
        q == seq![q[0]] + q.drop_first(),
{
    assert(q =~= seq![q[0]] + q.drop_first());
}

proof fn lemma_lookup_cons<H>(d: Dir<H>, k: Seq<char>, rest: Seq<Seq<char>>)
    ensures
        lookup(d, seq![k] + rest) == match entry_of(d.entries@, k) {
            Some(DirEntry::Handler(h)) => if rest.len() == 0 {
                Some(h)
            } else {
                None
            },
            Some(DirEntry::Dir(sub)) => lookup(*sub, rest),
            None => None,
        },
{
    let q = seq![k] + rest;
    assert(q[0] == k);
    assert(q.drop_first() =~= rest);
}

/// The start of the message for a path that a handler holds already, or
/// that lies above one.
pub const ALREADY_MOUNTED: &'static str = "handler already mounted at path ";

/// The start of the message for a path below a handler.
pub const BELOW_HANDLER: &'static str = "cannot mount handler below a leaf handler at ";

/// The message for an empty path.
pub const ROOT_MOUNT: &'static str = "cannot mount handler at root";

/// Whether a handler of `d` lies on a proper prefix of `p`.
pub closed spec fn below_handler_in<H>(d: Dir<H>, p: Seq<Seq<char>>) -> bool {
    exists|q: Seq<Seq<char>>| #[trigger] lookup(d, q) is Some && is_prefix(q, p) && q != p
}

/// The message with which mounting `p` after the routes `m` fails: the root
/// cannot be mounted; a path below a handler is refused as such; any other
/// conflict is a path mounted already.
pub open spec fn mount_error_message<H>(m: Multiset<(Seq<Seq<char>>, H)>, p: Seq<Seq<char>>) -> Seq<char> {
    if p.len() == 0 {
        ROOT_MOUNT@
    } else if exists|q: Seq<Seq<char>>| #[trigger] route_in(m, q) is Some && is_prefix(q, p) && q != p {
        BELOW_HANDLER@ + path_text(p)
    } else {
        ALREADY_MOUNTED@ + path_text(p)
    }
}

impl<H> Dir<H> {
    /// Adds an entry under a key that the directory does not hold, in its
    /// place among the ascending keys.
    fn add_entry(&mut self, k: Id, e: DirEntry<H>)
        requires
            keys_sorted(old(self).entries@),
            entries_wf(old(self).entries@),
            forall|j: int| 0 <= j < old(self).entries@.len() ==> old(self).entries@[j].0@ != k@,
            entry_ok(e),
        ensures
            final(self).wf(),
            forall|k2: Seq<char>| #[trigger] entry_of(final(self).entries@, k2) == if k2 == k@ {
                Some(e)
            } else {
                entry_of(old(self).entries@, k2)
            },
    {
        let ghost s = self.entries@;
        let ghost kv = k@;
        let ghost ev = e;
        let mut i: usize = self.entries.len();
        while i > 0 && text_less(k.as_str(), self.entries[i - 1].0.as_str())
            invariant
                i <= self.entries@.len(),
                self.entries@ == s,
                kv == k@,
                forall|j: int| i <= j < s.len() ==> seq_less(k@, #[trigger] s[j].0@),
            decreases i,
        {
            i = i - 1;
        }
        proof {
            if i > 0 {
                lemma_less_total(s[i - 1].0@, k@);
            }
        }
        self.entries.insert(i, (k, e));
        proof {
            let t = self.entries@;
            assert(t =~= s.insert(i as int, (t[i as int].0, ev)));
            assert forall|a: int, b: int| 0 <= a < b < t.len() implies seq_less(#[trigger] t[a].0@, #[trigger] t[b].0@) by {
                let a1 = if a < i { a } else if a == i { -1 } else { a - 1 };
                let b1 = if b < i { b } else if b == i { -1 } else { b - 1 };
                if a != i && b != i {
                    assert(t[a] == s[a1] && t[b] == s[b1]);
                } else if a == i {
                    assert(t[b] == s[b1]);
                } else {
                    assert(t[a] == s[a1]);
                    if a1 < i - 1 {
                        lemma_less_transitive(s[a1].0@, s[i - 1].0@, kv);
                    }
                }
            }
            lemma_sorted_distinct(t);
            lemma_sorted_distinct(s);
            lemma_entries_wf_all(s);
            assert forall|j: int| 0 <= j < t.len() implies entry_ok(#[trigger] t[j].1) by {
                if j < i {
                    assert(t[j] == s[j]);
                } else if j > i {
                    assert(t[j] == s[j - 1]);
                }
            }
            lemma_entries_wf_all(t);
            assert forall|k2: Seq<char>| #[trigger] entry_of(t, k2) == if k2 == kv {
                Some(ev)
            } else {
                entry_of(s, k2)
            } by {
                if k2 == kv {
                    lemma_entry_of_index(t, i as int);
                } else if exists|j: int| 0 <= j < s.len() && s[j].0@ == k2 {
                    let j = choose|j: int| 0 <= j < s.len() && s[j].0@ == k2;
                    lemma_entry_of_index(s, j);
                    let j1 = if j < i { j } else { j + 1 };
                    assert(t[j1] == s[j]);
                    lemma_entry_of_index(t, j1);
                } else {
                    lemma_entry_of_absent(s, k2);
                    assert forall|j: int| 0 <= j < t.len() implies t[j].0@ != k2 by {
                        if j < i {
                            assert(t[j] == s[j]);
                        } else if j > i {
                            assert(t[j] == s[j - 1]);
                        }
                    }
                    lemma_entry_of_absent(t, k2);
                }
            }
        }
    }

    /// Mounts `handler` at `path[start..]`; fails with `BadRequest` where a
    /// handler lies on a prefix of that path or below it.
    fn insert_segments(&mut self, path: &[Id], start: usize, handler: H) -> (r: Result<(), Error>)
        requires
            old(self).wf(),
            start < path@.len(),
        ensures
            r is Ok <==> free_in(*old(self), ids_view(path@).subrange(start as int, path@.len() as int)),
            r is Ok ==> final(self).wf() && forall|q: Seq<Seq<char>>| #[trigger] final(self).handler_at(q)
                == if q == ids_view(path@).subrange(start as int, path@.len() as int) {
                    Some(handler)
                } else {
                    old(self).handler_at(q)
                },
            r matches Err(e) ==> e.kind() == ErrorKind::BadRequest,
            r matches Err(e) ==> e.message_view() == (if below_handler_in(
                *old(self),
                ids_view(path@).subrange(start as int, path@.len() as int),
            ) {
                BELOW_HANDLER@
            } else {
                ALREADY_MOUNTED@
            }) + path_text(ids_view(path@)),
        decreases path@.len() - start,
    {
        let ghost p = ids_view(path@).subrange(start as int, path@.len() as int);
        let ghost s = self.entries@;
        let ghost old_self = *self;
        let head = &path[start];
        let last = start + 1 == path.len();
        proof {
            assert(p[0] == head@);
            lemma_cons_split(p);
        }
        match find_entry(&self.entries, head) {
            None => {
                proof {
                    lemma_entry_of_absent(s, head@);
                    assert forall|q: Seq<Seq<char>>| #[trigger] lookup(old_self, q) is Some implies !is_prefix(q, p) && !is_prefix(p, q) by {
                        if q.len() > 0 && q[0] == head@ {
                        }
                        if is_prefix(q, p) && q.len() > 0 {
                            assert(q[0] == p[0]);
                        }
                        if is_prefix(p, q) {
                            assert(q[0] == p[0]);
                        }
                    }
                }
                if last {
                    let k = head.duplicate();
                    let ghost x = (k, DirEntry::<H>::Handler(handler));
                    self.add_entry(k, DirEntry::Handler(handler));
                    proof {
                        assert(p =~= seq![head@]);
                        assert forall|q: Seq<Seq<char>>| #[trigger] self.handler_at(q) == if q == p {
                            Some(handler)
                        } else {
                            old_self.handler_at(q)
                        } by {
                            if q.len() > 0 {
                                assert(entry_of(self.entries@, q[0]) == if q[0] == head@ {
                                    Some(x.1)
                                } else {
                                    entry_of(s, q[0])
                                });
                                if q.len() == 1 && q[0] == head@ {
                                    assert(q =~= p);
                                }
                            }
                        }
                    }
                    Ok(())
                } else {
                    let mut sub: Dir<H> = Dir::new();
                    let ghost empty = sub;
                    match sub.insert_segments(path, start + 1, handler) {
                        Ok(()) => {},
                        Err(e) => {
                            proof {
                                assert forall|q: Seq<Seq<char>>| #[trigger] lookup(empty, q) is Some implies false by {
                                    assert(empty.handler_at(q) is None);
                                }
                                assert(free_in(empty, ids_view(path@).subrange(start + 1, path@.len() as int)));
                            }
                            return Err(e);
                        },
                    }
                    let ghost p1 = ids_view(path@).subrange(start + 1, path@.len() as int);
                    proof {
                        assert(p.drop_first() =~= p1);
                        assert(sub.handler_at(p1) is Some);
                        assert(lookup(sub, p1) is Some);
                    }
                    let ghost sub_v = sub;
                    let k = head.duplicate();
                    let ghost x = (k, DirEntry::<H>::Dir(Box::new(sub_v)));
                    proof {
                        assert(entry_ok(x.1));
                    }
                    self.add_entry(k, DirEntry::Dir(Box::new(sub)));
                    proof {
                        assert forall|q: Seq<Seq<char>>| #[trigger] self.handler_at(q) == if q == p {
                            Some(handler)
                        } else {
                            old_self.handler_at(q)
                        } by {
                            if q.len() > 0 {
                                assert(entry_of(self.entries@, q[0]) == if q[0] == head@ {
                                    Some(x.1)
                                } else {
                                    entry_of(s, q[0])
                                });
                                lemma_cons_split(q);
                                lemma_lookup_cons(*self, q[0], q.drop_first());
                                lemma_lookup_cons(old_self, q[0], q.drop_first());
                                if q[0] == head@ {
                                    assert(sub_v.handler_at(q.drop_first()) == if q.drop_first() == p1 {
                                        Some(handler)
                                    } else {
                                        empty.handler_at(q.drop_first())
                                    });
                                    assert(empty.handler_at(q.drop_first()) is None);
                                    if q.drop_first() == p1 {
                                        assert(q =~= p);
                                    } else {
                                        assert(q != p);
                                    }
                                }
                            }
                        }
                    }
                    Ok(())
                }
            },
            Some(i) => {
                proof {
                    lemma_entry_of_index(s, i as int);
                    lemma_entries_wf(s, i as int);
                }
                if last {
                    proof {
                        assert(p =~= seq![head@]);
                        match s[i as int].1 {
                            DirEntry::Handler(h0) => {
                                lemma_lookup_cons(old_self, head@, Seq::empty());
                                assert(seq![head@] + Seq::<Seq<char>>::empty() =~= p);
                                assert(lookup(old_self, p) is Some);
                                assert(p.subrange(0, p.len() as int) =~= p);
                            },
                            DirEntry::Dir(sub) => {
                                let q1 = choose|q: Seq<Seq<char>>| #[trigger] lookup(*sub, q) is Some;
                                lemma_lookup_cons(old_self, head@, q1);
                                let q = seq![head@] + q1;
                                assert(lookup(old_self, q) is Some);
                                assert(q.subrange(0, 1) =~= p);
                                assert(is_prefix(p, q));
                            },
                        }
                        assert forall|q: Seq<Seq<char>>| #[trigger] lookup(old_self, q) is Some implies !(is_prefix(q, p) && q != p) by {
                            if is_prefix(q, p) && q.len() == 1 {
                                assert(q =~= p);
                            }
                        }
                        assert(!below_handler_in(old_self, p));
                    }
                    return Err(Error::bad_request(mount_message(ALREADY_MOUNTED, path)));
                }
                let (k, e) = self.entries.remove(i);
                match e {
                    DirEntry::Handler(h0) => {
                        proof {
                            lemma_lookup_cons(old_self, head@, Seq::empty());
                            let q = seq![head@] + Seq::<Seq<char>>::empty();
                            assert(lookup(old_self, q) is Some);
                            assert(p.subrange(0, 1) =~= q);
                            assert(is_prefix(q, p));
                            assert(q.len() != p.len());
                            assert(below_handler_in(old_self, p));
                        }
                        self.entries.insert(i, (k, DirEntry::Handler(h0)));
                        Err(Error::bad_request(mount_message(BELOW_HANDLER, path)))
                    },
                    DirEntry::Dir(boxed) => {
                        let mut sub: Dir<H> = *boxed;
                        let ghost old_sub = sub;
                        let ghost p1 = ids_view(path@).subrange(start + 1, path@.len() as int);
                        proof {
                            assert(p.drop_first() =~= p1);
                            // a conflict in the subtree is a conflict here, and back
                            assert forall|q1: Seq<Seq<char>>| #[trigger] lookup(old_sub, q1) == lookup(old_self, seq![head@] + q1) by {
                                lemma_lookup_cons(old_self, head@, q1);
                            }
                        }
                        let r = sub.insert_segments(path, start + 1, handler);
                        let ghost sub_v = sub;
                        proof {
                            if below_handler_in(old_self, p) {
                                let q = choose|q: Seq<Seq<char>>| #[trigger] lookup(old_self, q) is Some && is_prefix(q, p) && q != p;
                                lemma_cons_split(q);
                                let q1 = q.drop_first();
                                assert(q[0] == p[0]);
                                lemma_lookup_cons(old_self, q[0], q1);
                                lemma_prefix_cons(head@, q1, p1);
                                assert(lookup(old_sub, q1) is Some);
                                assert(q1 != p1);
                                assert(below_handler_in(old_sub, p1));
                            }
                            if below_handler_in(old_sub, p1) {
                                let q1 = choose|q1: Seq<Seq<char>>| #[trigger] lookup(old_sub, q1) is Some && is_prefix(q1, p1) && q1 != p1;
                                let q = seq![head@] + q1;
                                lemma_lookup_cons(old_self, head@, q1);
                                lemma_prefix_cons(head@, q1, p1);
                                assert(q.drop_first() =~= q1);
                                assert(lookup(old_self, q) is Some);
                                assert(below_handler_in(old_self, p));
                            }
                        }
                        proof {
                            if free_in(old_sub, p1) {
                                assert forall|q: Seq<Seq<char>>| #[trigger] lookup(old_self, q) is Some implies !is_prefix(q, p) && !is_prefix(p, q) by {
                                    if q.len() > 0 {
                                        lemma_cons_split(q);
                                        lemma_lookup_cons(old_self, q[0], q.drop_first());
                                        if q[0] == head@ {
                                            assert(lookup(old_sub, q.drop_first()) is Some);
                                            lemma_prefix_cons(head@, q.drop_first(), p1);
                                            lemma_prefix_cons(head@, p1, q.drop_first());
                                        } else {
                                            if is_prefix(q, p) {
                                                assert(q[0] == p[0]);
                                            }
                                            if is_prefix(p, q) {
                                                assert(q[0] == p[0]);
                                            }
                                        }
                                    }
                                }
                            } else {
                                let q1 = choose|q1: Seq<Seq<char>>| #[trigger] lookup(old_sub, q1) is Some && !(!is_prefix(q1, p1) && !is_prefix(p1, q1));
                                let q = seq![head@] + q1;
                                assert(lookup(old_self, q) is Some);
                                lemma_prefix_cons(head@, q1, p1);
                                lemma_prefix_cons(head@, p1, q1);
                            }
                        }
                        self.entries.insert(i, (k, DirEntry::Dir(Box::new(sub))));
                        match r {
                            Ok(()) => {
                                proof {
                                    let x = self.entries@[i as int];
                                    assert(self.entries@ =~= s.update(i as int, (s[i as int].0, x.1)));
                                    assert(keys_distinct(self.entries@));
                                    assert(keys_sorted(self.entries@)) by {
                                        assert forall|a: int, b: int| 0 <= a < b < self.entries@.len() implies seq_less(
                                            #[trigger] self.entries@[a].0@,
                                            #[trigger] self.entries@[b].0@,
                                        ) by {
                                            assert(self.entries@[a].0 == s[a].0);
                                            assert(self.entries@[b].0 == s[b].0);
                                        }
                                    }
                                    assert(sub_v.handler_at(p1) == Some(handler));
                                    assert(lookup(sub_v, p1) is Some);
                                    lemma_entries_wf_update(s, i as int, (s[i as int].0, x.1));
                                    assert forall|q: Seq<Seq<char>>| #[trigger] self.handler_at(q) == if q == p {
                                        Some(handler)
                                    } else {
                                        old_self.handler_at(q)
                                    } by {
                                        if q.len() > 0 {
                                            lemma_entry_of_update(s, i as int, x.1, q[0]);
                                            lemma_cons_split(q);
                                            lemma_lookup_cons(*self, q[0], q.drop_first());
                                            lemma_lookup_cons(old_self, q[0], q.drop_first());
                                            if q[0] == head@ {
                                                assert(sub_v.handler_at(q.drop_first()) == if q.drop_first() == p1 {
                                                    Some(handler)
                                                } else {
                                                    old_sub.handler_at(q.drop_first())
                                                });
                                                if q.drop_first() == p1 {
                                                    assert(q =~= p);
                                                } else {
                                                    assert(q != p);
                                                }
                                            }
                                        }
                                    }
                                }
                                Ok(())
                            },
                            Err(e) => Err(e),
                        }
                    },
                }
            },
        }
    }
}

/// A message naming a path: the text and the path, `/a/b`.
fn mount_message(text: &str, path: &[Id]) -> (r: String)
    ensures
        r@ == text@ + path_text(ids_view(path@)),
{
    let mut v: Vec<Id> = Vec::new();
    let mut i: usize = 0;
    while i < path.len()
        invariant
            i <= path@.len(),
            ids_view(v@) =~= ids_view(path@).subrange(0, i as int),
        decreases path@.len() - i,
    {
        let ghost before = v@;
        v.push(path[i].duplicate());
        proof {
            assert(ids_view(v@) =~= ids_view(before).push(path@[i as int]@));
        }
        i = i + 1;
    }
    proof {
        assert(ids_view(path@).subrange(0, path@.len() as int) =~= ids_view(path@));
    }
    let p = crate::subject::path_to_text(&v);
    concat(text, p.as_str())
}

proof fn lemma_mount_step<H>(m: Multiset<(Seq<Seq<char>>, H)>, b: (Seq<Seq<char>>, H))
    requires
        mount_ok(m),
        b.0.len() > 0,
        forall|a: (Seq<Seq<char>>, H)| #[trigger] m.contains(a) ==> !is_prefix(a.0, b.0) && !is_prefix(b.0, a.0),
    ensures
        mount_ok(m.insert(b)),
        forall|q: Seq<Seq<char>>| #[trigger] route_in(m.insert(b), q) == if q == b.0 {
            Some(b.1)
        } else {
            route_in(m, q)
        },
{
    broadcast use vstd::multiset::group_multiset_axioms;

    let n = m.insert(b);
    assert(b.0.subrange(0, b.0.len() as int) =~= b.0);
    assert(!m.contains(b));
    assert forall|a: (Seq<Seq<char>>, H)| #[trigger] n.contains(a) implies a.0.len() > 0 && n.count(a) == 1 by {
        if a != b {
            assert(m.contains(a));
        }
    }
    assert forall|a: (Seq<Seq<char>>, H), c: (Seq<Seq<char>>, H)|
        #[trigger] n.contains(a) && #[trigger] n.contains(c) && a != c implies !is_prefix(a.0, c.0) by {
        if a != b && c != b {
            assert(m.contains(a) && m.contains(c));
        } else if a == b {
            assert(m.contains(c));
        } else {
            assert(m.contains(a));
        }
    }
    assert forall|q: Seq<Seq<char>>| #[trigger] route_in(n, q) == if q == b.0 {
        Some(b.1)
    } else {
        route_in(m, q)
    } by {
        assert(q.subrange(0, q.len() as int) =~= q);
        if q == b.0 {
            assert(n.contains((q, b.1)));
            let h = choose|h: H| n.contains((q, h));
            if h != b.1 {
                assert(m.contains((q, h)));
            }
        } else {
            if exists|h: H| m.contains((q, h)) {
                let h1 = choose|h: H| m.contains((q, h));
                assert(n.contains((q, h1)));
                let h2 = choose|h: H| n.contains((q, h));
                assert(m.contains((q, h2)));
                if h1 != h2 {
                    assert((q, h1) != (q, h2));
                }
            } else {
                if exists|h: H| n.contains((q, h)) {
                    let h2 = choose|h: H| n.contains((q, h));
                    assert(m.contains((q, h2)));
                }
            }
        }
    }
}

proof fn lemma_prefix_total_multiset<H>(s: Seq<(Seq<Seq<char>>, H)>, i: int)
    requires
        0 <= i < s.len(),
    ensures
        s.to_multiset() == s.subrange(0, i).to_multiset().add(s.subrange(i, s.len() as int).to_multiset()),
        s.subrange(0, i + 1).to_multiset() == s.subrange(0, i).to_multiset().insert(s[i]),
        s.subrange(i, s.len() as int).to_multiset().contains(s[i]),
{
    broadcast use vstd::multiset::group_multiset_axioms;

    vstd::seq_lib::lemma_multiset_commutative(s.subrange(0, i), s.subrange(i, s.len() as int));
    assert(s.subrange(0, i) + s.subrange(i, s.len() as int) =~= s);
    vstd::seq_lib::to_multiset_build(s.subrange(0, i), s[i]);
    assert(s.subrange(0, i).push(s[i]) =~= s.subrange(0, i + 1));
    let t = s.subrange(i, s.len() as int);
    assert(t[0] == s[i]);
    assert(t.contains(s[i]));
    vstd::seq_lib::to_multiset_contains(t, s[i]);
}

impl<H> Dir<H> {
    /// Builds a router from `(path, handler)` pairs. Fails with `BadRequest`
    /// where a path is empty, where two routes share a path, or where one
    /// route's path is a prefix of another's; otherwise each path leads to its
    /// handler and nothing else leads anywhere.
    pub fn from_routes(routes: Vec<(Vec<Id>, H)>) -> (r: Result<Dir<H>, Error>)
        ensures
            r is Ok <==> mount_ok(routes_multiset(routes@)),
            r matches Ok(d) ==> d.wf() && forall|p: Seq<Seq<char>>| #[trigger] d.handler_at(p)
                == route_in(routes_multiset(routes@), p),
            r matches Err(e) ==> e.kind() == ErrorKind::BadRequest,
            r matches Err(e) ==> exists|i: int|
                0 <= i < routes@.len() && mount_ok(routes_multiset(routes@.subrange(0, i)))
                    && !mount_ok(#[trigger] routes_multiset(routes@.subrange(0, i + 1)))
                    && e.message_view() == mount_error_message(
                    routes_multiset(routes@.subrange(0, i)),
                    ids_view(routes@[i].0@),
                ),
    {
        let ghost s = routes@.map_values(|r: (Vec<Id>, H)| (ids_view(r.0@), r.1));
        let ghost whole = s.to_multiset();
        let mut d: Dir<H> = Dir::new();
        let mut rest = routes;
        let ghost mut i: int = 0;
        proof {
            broadcast use vstd::multiset::group_multiset_axioms, vstd::seq_lib::group_to_multiset_ensures;

            assert(s.subrange(0, 0) =~= Seq::<(Seq<Seq<char>>, H)>::empty());
            assert(s.subrange(0, 0).to_multiset().len() == 0);
            assert(s.subrange(0, 0).to_multiset() =~= Multiset::<(Seq<Seq<char>>, H)>::empty());
            assert(rest@ =~= routes@.subrange(0, routes@.len() as int));
        }
        while rest.len() > 0
            invariant
                0 <= i <= routes@.len(),
                s == routes@.map_values(|r: (Vec<Id>, H)| (ids_view(r.0@), r.1)),
                whole == routes_multiset(routes@),
                rest@ == routes@.subrange(i, routes@.len() as int),
                d.wf(),
                mount_ok(s.subrange(0, i).to_multiset()),
                forall|p: Seq<Seq<char>>| #[trigger] d.handler_at(p) == route_in(s.subrange(0, i).to_multiset(), p),
            decreases rest.len(),
        {
            let (path, h) = rest.remove(0);
            let ghost b = (ids_view(path@), h);
            proof {
                assert(routes@[i] == (path, h));
                assert(s[i] == b);
                lemma_prefix_total_multiset(s, i);
            }
            let ghost mi = s.subrange(0, i).to_multiset();
            proof {
                assert(routes@.subrange(0, i).map_values(|r: (Vec<Id>, H)| (ids_view(r.0@), r.1)) =~= s.subrange(0, i));
                assert(routes@.subrange(0, i + 1).map_values(|r: (Vec<Id>, H)| (ids_view(r.0@), r.1)) =~= s.subrange(0, i + 1));
                assert(routes_multiset(routes@.subrange(0, i)) == mi);
                assert(routes_multiset(routes@.subrange(0, i + 1)) == mi.insert(b));
            }
            if path.len() == 0 {
                proof {
                    broadcast use vstd::multiset::group_multiset_axioms;

                    assert(whole.contains(b));
                    assert(b.0.len() == 0);
                    assert(mi.insert(b).contains(b));
                    reveal_strlit("cannot mount handler at root");
                }
                return Err(Error::bad_request(ROOT_MOUNT.to_owned()));
            }
            proof {
                assert(ids_view(path@).subrange(0, path@.len() as int) =~= ids_view(path@));
            }
            let ghost d0 = d;
            match d.insert_segments(path.as_slice(), 0, h) {
                Ok(()) => {
                    proof {
                        assert forall|a: (Seq<Seq<char>>, H)| #[trigger] mi.contains(a) implies !is_prefix(a.0, b.0) && !is_prefix(b.0, a.0) by {
                            assert(mi.contains((a.0, a.1)));
                            assert(route_in(mi, a.0) is Some);
                            assert(d0.handler_at(a.0) is Some);
                            assert(lookup(d0, a.0) is Some);
                        }
                        lemma_mount_step(mi, b);
                    }
                },
                Err(e) => {
                    proof {
                        broadcast use vstd::multiset::group_multiset_axioms;

                        let q = choose|q: Seq<Seq<char>>| #[trigger] lookup(d0, q) is Some && !(!is_prefix(q, b.0) && !is_prefix(b.0, q));
                        assert(d0.handler_at(q) is Some);
                        let h1 = choose|h1: H| mi.contains((q, h1));
                        let a = (q, h1);
                        assert(whole.contains(a));
                        assert(whole.contains(b));
                        if a == b {
                            assert(whole.count(b) >= 2);
                        }
                        let n = mi.insert(b);
                        assert(n.contains(a) && n.contains(b));
                        if a == b {
                            assert(n.count(b) >= 2);
                        }
                        assert(!mount_ok(n));
                        assert(below_handler_in(d0, b.0) == exists|q: Seq<Seq<char>>| #[trigger] route_in(mi, q) is Some && is_prefix(q, b.0) && q != b.0) by {
                            if below_handler_in(d0, b.0) {
                                let q2 = choose|q2: Seq<Seq<char>>| #[trigger] lookup(d0, q2) is Some && is_prefix(q2, b.0) && q2 != b.0;
                                assert(d0.handler_at(q2) is Some);
                                assert(route_in(mi, q2) is Some);
                            }
                            if exists|q2: Seq<Seq<char>>| #[trigger] route_in(mi, q2) is Some && is_prefix(q2, b.0) && q2 != b.0 {
                                let q2 = choose|q2: Seq<Seq<char>>| #[trigger] route_in(mi, q2) is Some && is_prefix(q2, b.0) && q2 != b.0;
                                assert(d0.handler_at(q2) is Some);
                                assert(lookup(d0, q2) is Some);
                            }
                        }
                        assert(e.message_view() == mount_error_message(mi, b.0));
                    }
                    return Err(e);
                },
            }
            proof {
                i = i + 1;
                assert(rest@ =~= routes@.subrange(i, routes@.len() as int));
            }
        }
        proof {
            assert(s.subrange(0, i) =~= s);
        }
        Ok(d)
    }

    /// The handler mounted at exactly `path`; a path that ends at a directory,
    /// or runs past a handler, finds nothing.
    pub fn route(&self, path: &[Id]) -> (r: Option<&H>)
        requires
            self.wf(),
        ensures
            r is None <==> self.handler_at(ids_view(path@)) is None,
            r matches Some(h) ==> self.handler_at(ids_view(path@)) == Some(*h),
    {
        proof {
            assert(ids_view(path@).subrange(0, path@.len() as int) =~= ids_view(path@));
        }
        self.route_path(path, 0)
    }

    fn route_path(&self, path: &[Id], start: usize) -> (r: Option<&H>)
        requires
            self.wf(),
            start <= path@.len(),
        ensures
            r is None <==> lookup(*self, ids_view(path@).subrange(start as int, path@.len() as int)) is None,
            r matches Some(h) ==> lookup(*self, ids_view(path@).subrange(start as int, path@.len() as int))
                == Some(*h),
        decreases path@.len() - start,
    {
        let ghost p = ids_view(path@).subrange(start as int, path@.len() as int);
        if start == path.len() {
            return None;
        }
        let head = &path[start];
        proof {
            assert(p[0] == head@);
            assert(p.drop_first() =~= ids_view(path@).subrange(start + 1, path@.len() as int));
        }
        match find_entry(&self.entries, head) {
            None => {
                proof {
                    lemma_entry_of_absent(self.entries@, head@);
                }
                None
            },
            Some(i) => {
                proof {
                    lemma_entry_of_index(self.entries@, i as int);
                    lemma_entries_wf(self.entries@, i as int);
                }
                match &self.entries[i].1 {
                    DirEntry::Handler(h) => {
                        if start + 1 == path.len() {
                            Some(h)
                        } else {
                            None
                        }
                    },
                    DirEntry::Dir(sub) => sub.route_path(path, start + 1),
                }
            },
        }
    }
}

/// Mount uniqueness: routes that mount two handlers at one path can never be
/// mounted together.
pub proof fn mount_uniqueness<H>(
    m: Multiset<(Seq<Seq<char>>, H)>,
    p: Seq<Seq<char>>,
    h1: H,
    h2: H,
)
    ensures
        !mount_ok(m.insert((p, h1)).insert((p, h2))),
{
    broadcast use vstd::multiset::group_multiset_axioms;

    let n = m.insert((p, h1)).insert((p, h2));
    assert(n.contains((p, h1)) && n.contains((p, h2)));
    assert(p.subrange(0, p.len() as int) =~= p);
    if h1 == h2 {
        assert(n.count((p, h1)) >= 2);
    }
}

/// Router determinism: whether routes mount, and where each path leads, depend
/// on the routes as a multiset alone, not on their order.
pub proof fn routing_order_independent<H>(a: Seq<(Vec<Id>, H)>, b: Seq<(Vec<Id>, H)>, p: Seq<Seq<char>>)
    requires
        routes_multiset(a) == routes_multiset(b),
    ensures
        mount_ok(routes_multiset(a)) == mount_ok(routes_multiset(b)),
        route_in(routes_multiset(a), p) == route_in(routes_multiset(b), p),
{
}

/// Whether `c` has the Unicode White_Space property, which `char::is_whitespace`
/// tests.
pub open spec fn is_white_space(c: char) -> bool {
    ('\u{9}' <= c && c <= '\u{d}') || c == ' ' || c == '\u{85}' || c == '\u{a0}' || c == '\u{1680}'
        || ('\u{2000}' <= c && c <= '\u{200a}') || c == '\u{2028}' || c == '\u{2029}' || c
        == '\u{202f}' || c == '\u{205f}' || c == '\u{3000}'
}

/// `s` without its leading white space.
pub open spec fn trim_start(s: Seq<char>) -> Seq<char>
    decreases s.len(),
{
    if s.len() > 0 && is_white_space(s[0]) {
        trim_start(s.drop_first())
    } else {
        s
    }
}

/// `s` without its trailing white space.
pub open spec fn trim_end(s: Seq<char>) -> Seq<char>
    decreases s.len(),
{
    if s.len() > 0 && is_white_space(s[s.len() - 1]) {
        trim_end(s.drop_last())
    } else {
        s
    }
}

/// What `str::trim` leaves of a text: the text without leading and trailing
/// white space.
pub open spec fn trimmed(s: Seq<char>) -> Seq<char> {
    trim_end(trim_start(s))
}

/// Relies on `str::trim`: the text without leading and trailing white space,
/// as `char::is_whitespace` defines it.
#[verifier::external_body]
fn trim_text(s: &str) -> (r: String)
    ensures
        r@ == trimmed(s@),
{
    s.trim().to_owned()
}

/// The segments that `parse_route_path` reads from a text: after trimming
/// and one leading `/`, the pieces between the `/` characters, each an
/// identifier.
pub open spec fn route_path_form(s: Seq<char>) -> Option<Seq<Seq<char>>> {
    if s.len() == 0 {
        None
    } else {
        let t = trimmed(s);
        let u = if t.len() > 0 && t[0] == '/' {
            t.drop_first()
        } else {
            t
        };
        if u.len() == 0 {
            None
        } else {
            let parts = split_slash(u);
            if all_ids(parts) {
                Some(parts)
            } else {
                None
            }
        }
    }
}

proof fn lemma_route_path_none(s: Seq<char>, t: Seq<char>, u: Seq<char>, k: int)
    requires
        s.len() > 0,
        t == trimmed(s),
        t.len() > 0 && t[0] == '/' ==> u == t.drop_first(),
        !(t.len() > 0 && t[0] == '/') ==> u == t,
        u.len() > 0,
        0 <= k < split_slash(u).len(),
        !id_ok(split_slash(u)[k]),
    ensures
        route_path_form(s) is None,
{
    assert(!all_ids(split_slash(u)));
}

/// Every segment is an identifier.
pub open spec fn all_ids(parts: Seq<Seq<char>>) -> bool {
    forall|i: int| 0 <= i < parts.len() ==> id_ok(#[trigger] parts[i])
}

proof fn lemma_trim_blank(s: Seq<char>)
    requires
        forall|i: int| 0 <= i < s.len() ==> is_white_space(#[trigger] s[i]),
    ensures
        trim_start(s).len() == 0,
    decreases s.len(),
{
    if s.len() > 0 {
        let t = s.drop_first();
        assert forall|i: int| 0 <= i < t.len() implies is_white_space(#[trigger] t[i]) by {
            assert(t[i] == s[i + 1]);
        }
        lemma_trim_blank(t);
    }
}

/// A route path that is empty or white space only is refused.
pub proof fn blank_route_path_refused(s: Seq<char>)
    requires
        forall|i: int| 0 <= i < s.len() ==> is_white_space(#[trigger] s[i]),
    ensures
        route_path_form(s) is None,
{
    if s.len() > 0 {
        lemma_trim_blank(s);
        assert(trimmed(s).len() == 0);
    }
}

/// Parses a `/a/b`-style path into segments; fails with `BadRequest` where
/// [`route_path_form`] has no value.
pub fn parse_route_path(path: &str) -> (r: Result<Vec<Id>, Error>)
    ensures
        r is Ok <==> route_path_form(path@) is Some,
        r matches Ok(v) ==> ids_view(v@) == route_path_form(path@)->0,
        r matches Err(e) ==> e.kind() == ErrorKind::BadRequest,
{
    if chars_of(path).len() == 0 {
        return Err(Error::bad_request("route paths must not be empty".to_owned()));
    }
    let trimmed_text = trim_text(path);
    let t = chars_of(trimmed_text.as_str());
    let from: usize = if t.len() > 0 && t[0] == '/' {
        1
    } else {
        0
    };
    let ghost u = t@.subrange(from as int, t@.len() as int);
    proof {
        if from == 1 {
            assert(u =~= t@.drop_first());
        } else {
            assert(u =~= t@);
        }
    }
    if from == t.len() {
        return Err(Error::bad_request("route paths must contain at least one segment".to_owned()));
    }
    let mut out: Vec<Id> = Vec::new();
    let mut start: usize = from;
    let mut i: usize = from;
    proof {
        assert(t@.subrange(from as int, t@.len() as int) =~= u);
        assert(ids_view(out@) =~= Seq::<Seq<char>>::empty());
    }
    while i < t.len()
        invariant
            from <= start <= i <= t@.len(),
            u == t@.subrange(from as int, t@.len() as int),
            t@ == trimmed(path@),
            path@.len() > 0,
            u.len() > 0,
            from == 0 || from == 1,
            from == 1 ==> t@.len() > 0 && t@[0] == '/' && u == t@.drop_first(),
            from == 0 ==> !(t@.len() > 0 && t@[0] == '/') && u == t@,
            forall|j: int| start <= j < i ==> t@[j] != '/',
            split_slash(u) == ids_view(out@) + split_slash(t@.subrange(start as int, t@.len() as int)),
            forall|j: int| 0 <= j < out@.len() ==> id_ok(#[trigger] ids_view(out@)[j]),
        decreases t@.len() - i,
    {
        if t[i] == '/' {
            let piece = text_of(&t, start, i);
            let ghost a = t@.subrange(start as int, i as int);
            let ghost b = t@.subrange(i + 1, t@.len() as int);
            proof {
                assert(!a.contains('/')) by {
                    if a.contains('/') {
                        let k = choose|k: int| 0 <= k < a.len() && a[k] == '/';
                        assert(t@[start + k] == '/');
                    }
                }
                assert(t@.subrange(start as int, t@.len() as int) =~= a + (seq!['/'] + b));
                crate::subject::lemma_split_no_slash(a, seq!['/'] + b);
                assert((seq!['/'] + b).drop_first() =~= b);
                assert(split_slash(seq!['/'] + b) == seq![Seq::<char>::empty()] + split_slash(b));
                assert(a + Seq::<char>::empty() =~= a);
                assert(split_slash(a + (seq!['/'] + b)) =~= seq![a] + split_slash(b));
            }
            match Id::parse(piece.as_str()) {
                Ok(id) => {
                    let ghost before = out@;
                    out.push(id);
                    proof {
                        assert(ids_view(out@) =~= ids_view(before).push(a));
                        assert(ids_view(before) + (seq![a] + split_slash(b)) =~= ids_view(out@) + split_slash(b));
                    }
                },
                Err(_) => {
                    proof {
                        let parts = split_slash(u);
                        assert(parts == ids_view(out@) + (seq![a] + split_slash(b)));
                        assert(parts[out@.len() as int] == a);
                        assert(!id_ok(parts[out@.len() as int]));
                        lemma_route_path_none(path@, t@, u, out@.len() as int);
                    }
                    return Err(Error::bad_request(concat("invalid route segment: ", piece.as_str())));
                },
            }
            start = i + 1;
        }
        i = i + 1;
    }
    let piece = text_of(&t, start, t.len());
    let ghost a = t@.subrange(start as int, t@.len() as int);
    proof {
        assert(!a.contains('/')) by {
            if a.contains('/') {
                let k = choose|k: int| 0 <= k < a.len() && a[k] == '/';
                assert(t@[start + k] == '/');
            }
        }
        crate::subject::lemma_split_no_slash(a, Seq::empty());
        assert(a + Seq::<char>::empty() =~= a);
        assert(split_slash(Seq::<char>::empty()) == seq![Seq::<char>::empty()]);
        assert(split_slash(a) =~= seq![a]);
    }
    match Id::parse(piece.as_str()) {
        Ok(id) => {
            let ghost before = out@;
            out.push(id);
            proof {
                assert(ids_view(out@) =~= ids_view(before).push(a));
                assert(ids_view(before) + seq![a] =~= ids_view(out@));
                assert(split_slash(u) == ids_view(out@));
                assert forall|j: int| 0 <= j < ids_view(out@).len() implies id_ok(#[trigger] ids_view(out@)[j]) by {
                    if j < before.len() {
                        assert(ids_view(out@)[j] == ids_view(before)[j]);
                    }
                }
            }
            Ok(out)
        },
        Err(_) => {
            proof {
                let parts = split_slash(u);
                assert(parts == ids_view(out@) + seq![a]);
                assert(parts[out@.len() as int] == a);
                assert(!id_ok(parts[out@.len() as int]));
                lemma_route_path_none(path@, t@, u, out@.len() as int);
            }
            Err(Error::bad_request(concat("invalid route segment: ", piece.as_str())))
        },
    }
}

/// No partial matches: where the routes mount one handler at `[a, b]`, the
/// path `[a]` and the path `[a, b, c]` lead nowhere, and `[a, b]` leads to the
/// handler.
pub proof fn no_partial_matches<H>(a: Seq<char>, b: Seq<char>, c: Seq<char>, h: H)
    ensures
        route_in(Multiset::<(Seq<Seq<char>>, H)>::empty().insert((seq![a, b], h)), seq![a]) is None,
        route_in(Multiset::<(Seq<Seq<char>>, H)>::empty().insert((seq![a, b], h)), seq![a, b, c])
            is None,
        route_in(Multiset::<(Seq<Seq<char>>, H)>::empty().insert((seq![a, b], h)), seq![a, b]) == Some(h),
{
    broadcast use vstd::multiset::group_multiset_axioms;

    let m = Multiset::<(Seq<Seq<char>>, H)>::empty().insert((seq![a, b], h));
    assert forall|x: H| !m.contains((seq![a], x)) by {
        assert(seq![a].len() != seq![a, b].len());
    }
    assert forall|x: H| !m.contains((seq![a, b, c], x)) by {
        assert(seq![a, b, c].len() != seq![a, b].len());
    }
    assert(m.contains((seq![a, b], h)));
    let chosen = choose|x: H| m.contains((seq![a, b], x));
    assert(chosen == h);
}

} // verus!
