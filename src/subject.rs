//! Paths and the subject of an operation: a link, or a scoped reference with a
//! path below it.

use vstd::prelude::*;

use crate::error::{Error, ErrorKind};
use crate::ident::{id_ok, id_wf, id_ref_form, id_ref_text, link_valid, Id, IdRef, Link};
use crate::text::{chars_of, concat, text_of};

verus! {

/// The pieces of `t` between the `/` characters, as `str::split('/')` gives them.
pub open spec fn split_slash(t: Seq<char>) -> Seq<Seq<char>>
    decreases t.len(),
{
    if t.len() == 0 {
        seq![Seq::empty()]
    } else {
        let rest = split_slash(t.drop_first());
        if t[0] == '/' {
            seq![Seq::<char>::empty()] + rest
        } else {
            rest.update(0, seq![t[0]] + rest[0])
        }
    }
}

/// What pathlink's `PathBuf::from_str` makes of a text: `/` is the empty path;
/// a text that ends in `/` is refused; a text that starts with `/` is split
/// into segments, each of which must be an identifier; any other text must be
/// one identifier.
pub open spec fn path_form(s: Seq<char>) -> Option<Seq<Seq<char>>> {
    if s == seq!['/'] {
        Some(Seq::empty())
    } else if s.len() > 0 && s[s.len() - 1] == '/' {
        None
    } else if s.len() > 0 && s[0] == '/' {
        let parts = split_slash(s.drop_first());
        if forall|i: int| 0 <= i < parts.len() ==> id_ok(#[trigger] parts[i]) {
            Some(parts)
        } else {
            None
        }
    } else if id_ok(s) {
        Some(seq![s])
    } else {
        None
    }
}

/// Relies on pathlink's `PathBuf::from_str`, which splits the text at each `/`
/// and parses each piece as an hr_id `Id`.
#[verifier::external_body]
fn parse_path(s: &str) -> (r: Option<Vec<String>>)
    ensures
        r is Some <==> path_form(s@) is Some,
        r matches Some(v) ==> strings_view(v@) == path_form(s@)->0,
{
    match s.parse::<pathlink::PathBuf>() {
        Ok(path) => Some(path.iter().map(|seg| seg.to_string()).collect()),
        Err(_) => None,
    }
}

/// The texts of a sequence of strings.
pub open spec fn strings_view(s: Seq<String>) -> Seq<Seq<char>> {
    s.map_values(|t: String| t@)
}

/// The texts of a sequence of identifiers.
pub open spec fn ids_view(s: Seq<Id>) -> Seq<Seq<char>> {
    s.map_values(|id: Id| id@)
}

/// The text of a path below a scoped reference: `/a/b`, or nothing for the
/// empty path.
pub open spec fn path_text(segs: Seq<Seq<char>>) -> Seq<char>
    decreases segs.len(),
{
    if segs.len() == 0 {
        Seq::empty()
    } else {
        seq!['/'] + segs[0] + path_text(segs.drop_first())
    }
}

/// The index of the first `/` in `s`, or -1.
pub open spec fn slash_index(s: Seq<char>) -> int
    decreases s.len(),
{
    if s.len() == 0 {
        -1
    } else if s[0] == '/' {
        0
    } else {
        let k = slash_index(s.drop_first());
        if k < 0 {
            -1
        } else {
            k + 1
        }
    }
}

/// The mathematical value of a [`Subject`].
pub enum SubjectV {
    Link(Seq<char>),
    Ref(Seq<char>, Seq<Seq<char>>),
}

/// The text form of a subject.
pub open spec fn subject_text(s: SubjectV) -> Seq<char> {
    match s {
        SubjectV::Link(l) => l,
        SubjectV::Ref(id, path) => id_ref_text(id) + path_text(path),
    }
}

/// What `subject_from_str` makes of a text. A text that starts with `$` is a
/// scoped reference, split at its first `/` into the reference and a path;
/// any other text is a link.
pub open spec fn subject_form(s: Seq<char>) -> Option<SubjectV> {
    if s.len() > 0 && s[0] == '$' {
        let i = slash_index(s);
        if i >= 0 {
            match (path_form(s.subrange(i, s.len() as int)), id_ref_form(s.subrange(0, i))) {
                (Some(path), Some(id)) => Some(SubjectV::Ref(id, path)),
                _ => None,
            }
        } else {
            match id_ref_form(s) {
                Some(id) => Some(SubjectV::Ref(id, Seq::empty())),
                None => None,
            }
        }
    } else if link_valid(s) {
        Some(SubjectV::Link(s))
    } else {
        None
    }
}

/// The subject of an operation.
#[derive(Clone, Debug, PartialEq)]
pub enum Subject {
    Link(Link),
    Ref(IdRef, Vec<Id>),
}

impl View for Subject {
    type V = SubjectV;

    open spec fn view(&self) -> SubjectV {
        match self {
            Subject::Link(l) => SubjectV::Link(l@),
            Subject::Ref(id, path) => SubjectV::Ref(id@, ids_view(path@)),
        }
    }
}

/// A subject that the text form carries without loss: a link that does not
/// start with `$`, or a reference and path made of identifiers.
pub open spec fn subject_wf(s: SubjectV) -> bool {
    match s {
        SubjectV::Link(l) => link_valid(l) && !(l.len() > 0 && l[0] == '$'),
        SubjectV::Ref(id, path) => id_wf(id) && forall|i: int|
            0 <= i < path.len() ==> id_wf(#[trigger] path[i]),
    }
}

proof fn lemma_slash_index(s: Seq<char>, i: int)
    requires
        0 <= i <= s.len(),
        forall|j: int| 0 <= j < i ==> s[j] != '/',
    ensures
        i < s.len() && s[i] == '/' ==> slash_index(s) == i,
        i == s.len() ==> slash_index(s) == -1,
    decreases i,
{
    if i > 0 {
        lemma_slash_index(s.drop_first(), i - 1);
    }
}

pub proof fn lemma_split_no_slash(a: Seq<char>, t: Seq<char>)
    requires
        !a.contains('/'),
    ensures
        split_slash(a + t) == split_slash(t).update(0, a + split_slash(t)[0]),
        split_slash(a + t).len() == split_slash(t).len(),
    decreases a.len(),
{
    lemma_split_len(t);
    if a.len() == 0 {
        assert(a + t =~= t);
        assert(a + split_slash(t)[0] =~= split_slash(t)[0]);
        assert(split_slash(t).update(0, split_slash(t)[0]) =~= split_slash(t));
    } else {
        let a1 = a.drop_first();
        assert(!a1.contains('/')) by {
            if a1.contains('/') {
                let k = choose|k: int| 0 <= k < a1.len() && a1[k] == '/';
                assert(a[k + 1] == '/');
            }
        }
        assert(a[0] != '/') by {
            assert(a.contains(a[0]));
        }
        lemma_split_no_slash(a1, t);
        assert((a + t).drop_first() =~= a1 + t);
        assert(seq![a[0]] + (a1 + split_slash(t)[0]) =~= a + split_slash(t)[0]);
        assert(split_slash(a + t) =~= split_slash(t).update(0, a + split_slash(t)[0]));
    }
}

proof fn lemma_split_len(t: Seq<char>)
    ensures
        split_slash(t).len() >= 1,
    decreases t.len(),
{
    if t.len() > 0 {
        lemma_split_len(t.drop_first());
    }
}

/// Splitting the text of a non-empty path, without its leading `/`, gives
/// back its segments.
proof fn lemma_split_path_text(segs: Seq<Seq<char>>)
    requires
        segs.len() > 0,
        forall|i: int| 0 <= i < segs.len() ==> !(#[trigger] segs[i]).contains('/'),
    ensures
        split_slash(path_text(segs).drop_first()) == segs,
    decreases segs.len(),
{
    let rest = segs.drop_first();
    assert(path_text(segs).drop_first() =~= segs[0] + path_text(rest));
    if rest.len() == 0 {
        assert(path_text(rest) =~= Seq::<char>::empty());
        lemma_split_no_slash(segs[0], Seq::empty());
        assert(segs[0] + Seq::<char>::empty() =~= segs[0]);
        assert(split_slash(segs[0] + path_text(rest)) =~= segs);
    } else {
        assert forall|i: int| 0 <= i < rest.len() implies !(#[trigger] rest[i]).contains('/') by {
            assert(rest[i] == segs[i + 1]);
        }
        lemma_split_path_text(rest);
        let x = path_text(rest);
        assert(x =~= seq!['/'] + x.drop_first());
        lemma_split_no_slash(segs[0], x);
        let sx = split_slash(x);
        assert(sx =~= seq![Seq::<char>::empty()] + rest) by {
            assert(x.drop_first() == rest[0] + path_text(rest.drop_first())) by {
                assert(x.drop_first() =~= rest[0] + path_text(rest.drop_first()));
            }
        }
        assert(segs[0] + Seq::<char>::empty() =~= segs[0]);
        assert(split_slash(segs[0] + x) =~= segs);
    }
}

proof fn lemma_path_text_props(segs: Seq<Seq<char>>)
    requires
        forall|i: int| 0 <= i < segs.len() ==> id_wf(#[trigger] segs[i]),
    ensures
        segs.len() > 0 ==> path_text(segs).len() > 1 && path_text(segs)[0] == '/'
            && path_text(segs)[path_text(segs).len() - 1] != '/',
    decreases segs.len(),
{
    if segs.len() > 0 {
        let rest = segs.drop_first();
        assert forall|i: int| 0 <= i < rest.len() implies id_wf(#[trigger] rest[i]) by {
            assert(rest[i] == segs[i + 1]);
        }
        lemma_path_text_props(rest);
        let t = path_text(segs);
        if rest.len() == 0 {
            assert(t =~= seq!['/'] + segs[0]);
            assert(segs[0].contains(segs[0][segs[0].len() - 1]));
        } else {
            assert(t[t.len() - 1] == path_text(rest)[path_text(rest).len() - 1]);
        }
    }
}

/// Parses a path, as pathlink's `PathBuf::from_str` does.
pub fn parse_path_segments(s: &str) -> (r: Result<Vec<Id>, Error>)
    ensures
        r is Ok <==> path_form(s@) is Some,
        r matches Ok(v) ==> ids_view(v@) == path_form(s@)->0,
        r matches Err(e) ==> e.kind() == ErrorKind::BadRequest,
{
    match parse_path(s) {
        None => Err(Error::bad_request(concat("invalid path: ", s))),
        Some(parts) => {
            let mut out: Vec<Id> = Vec::new();
            let mut i: usize = 0;
            while i < parts.len()
                invariant
                    i <= parts.len(),
                    path_form(s@) is Some,
                    strings_view(parts@) == path_form(s@)->0,
                    ids_view(out@) =~= strings_view(parts@).subrange(0, i as int),
                decreases parts.len() - i,
            {
                let ghost parts_v = path_form(s@)->0;
                assert(strings_view(parts@)[i as int] == parts@[i as int]@);
                assert(id_ok(parts@[i as int]@)) by {
                    assert(parts_v[i as int] == parts@[i as int]@);
                    assert(parts_v.len() == parts@.len());
                    if s@ == seq!['/'] {
                        assert(parts_v.len() == 0);
                    } else if s@.len() > 0 && s@[s@.len() - 1] == '/' {
                    } else if s@.len() > 0 && s@[0] == '/' {
                        let pp = split_slash(s@.drop_first());
                        assert(pp == parts_v);
                        assert(id_ok(pp[i as int]));
                    } else {
                        assert(parts_v =~= seq![s@]);
                    }
                }
                match Id::parse(parts[i].as_str()) {
                    Ok(id) => {
                        let ghost before = out@;
                        out.push(id);
                        proof {
                            assert(ids_view(out@) =~= ids_view(before).push(parts@[i as int]@));
                            assert(strings_view(parts@).subrange(0, i as int + 1) =~= strings_view(parts@).subrange(0, i as int).push(parts@[i as int]@));
                        }
                    },
                    Err(_) => {
                        return Err(Error::bad_request(concat("invalid path: ", s)));
                    },
                }
                i = i + 1;
            }
            assert(strings_view(parts@).subrange(0, parts@.len() as int) =~= strings_view(parts@));
            Ok(out)
        },
    }
}

/// The text of a path below a scoped reference.
pub(crate) fn path_to_text(path: &Vec<Id>) -> (r: String)
    ensures
        r@ == path_text(ids_view(path@)),
{
    let mut out = String::new();
    let mut i: usize = path.len();
    proof {
        assert(ids_view(path@).subrange(path@.len() as int, path@.len() as int) =~= Seq::<Seq<char>>::empty());
    }
    while i > 0
        invariant
            i <= path.len(),
            out@ == path_text(ids_view(path@).subrange(i as int, path@.len() as int)),
        decreases i,
    {
        i = i - 1;
        let with_slash = concat("/", path[i].as_str());
        out = concat(with_slash.as_str(), out.as_str());
        proof {
            reveal_strlit("/");
            let v = ids_view(path@);
            assert(v.subrange(i as int, v.len() as int).drop_first() =~= v.subrange(i as int + 1, v.len() as int));
            assert(v.subrange(i as int, v.len() as int)[0] == path@[i as int]@);
            assert(out@ =~= path_text(v.subrange(i as int, v.len() as int)));
        }
    }
    proof {
        assert(ids_view(path@).subrange(0, path@.len() as int) =~= ids_view(path@));
    }
    out
}

impl Subject {
    /// The text form: the link, `$name`, or `$name/a/b`.
    pub fn to_text(&self) -> (r: String)
        ensures
            r@ == subject_text(self@),
    {
        match self {
            Subject::Link(l) => l.to_text(),
            Subject::Ref(id, path) => {
                let head = id.to_text();
                let tail = path_to_text(path);
                concat(head.as_str(), tail.as_str())
            },
        }
    }

    pub fn duplicate(&self) -> (r: Subject)
        ensures
            r@ == self@,
    {
        match self {
            Subject::Link(l) => Subject::Link(l.duplicate()),
            Subject::Ref(id, path) => {
                let mut out: Vec<Id> = Vec::new();
                let mut i: usize = 0;
                while i < path.len()
                    invariant
                        i <= path.len(),
                        ids_view(out@) =~= ids_view(path@).subrange(0, i as int),
                    decreases path.len() - i,
                {
                    let ghost before = out@;
                    out.push(path[i].duplicate());
                    proof {
                        assert(ids_view(out@) =~= ids_view(before).push(path@[i as int]@));
                        assert(ids_view(path@).subrange(0, i as int + 1) =~= ids_view(path@).subrange(0, i as int).push(path@[i as int]@));
                    }
                    i = i + 1;
                }
                assert(ids_view(path@).subrange(0, path@.len() as int) =~= ids_view(path@));
                Subject::Ref(id.duplicate(), out)
            },
        }
    }
}

/// Parses the text form of a subject; fails with `BadRequest` where
/// [`subject_form`] has no value.
pub fn subject_from_str(s: &str) -> (r: Result<Subject, Error>)
    ensures
        r is Ok <==> subject_form(s@) is Some,
        r matches Ok(x) ==> Some(x@) == subject_form(s@),
        r matches Err(e) ==> e.kind() == ErrorKind::BadRequest,
{
    let cs = chars_of(s);
    if cs.len() > 0 && cs[0] == '$' {
        let mut i: usize = 0;
        while i < cs.len() && cs[i] != '/'
            invariant
                i <= cs.len(),
                cs@ == s@,
                forall|j: int| 0 <= j < i ==> cs@[j] != '/',
            decreases cs.len() - i,
        {
            i = i + 1;
        }
        proof {
            lemma_slash_index(s@, i as int);
        }
        if i < cs.len() {
            let id_text = text_of(&cs, 0, i);
            let path_str = text_of(&cs, i, cs.len());
            let path = parse_path_segments(path_str.as_str())?;
            let id = IdRef::parse(id_text.as_str())?;
            Ok(Subject::Ref(id, path))
        } else {
            let id = IdRef::parse(s)?;
            let empty: Vec<Id> = Vec::new();
            proof {
                assert(ids_view(empty@) =~= Seq::<Seq<char>>::empty());
            }
            Ok(Subject::Ref(id, empty))
        }
    } else {
        let l = Link::parse(s)?;
        Ok(Subject::Link(l))
    }
}

/// The text form of a well-formed subject parses back to that subject.
pub proof fn lemma_subject_round_trip(s: SubjectV)
    requires
        subject_wf(s),
    ensures
        subject_form(subject_text(s)) == Some(s),
{
    match s {
        SubjectV::Link(l) => {
            assert(subject_text(s) == l);
            assert(subject_form(l) == Some(SubjectV::Link(l)));
        },
        SubjectV::Ref(id, path) => {
            let t = subject_text(s);
            let head = id_ref_text(id);
            assert(head.len() == id.len() + 1);
            assert forall|j: int| 0 <= j < head.len() implies t[j] != '/' by {
                if j > 0 {
                    assert(id.contains(id[j - 1]));
                }
            }
            assert(t.subrange(0, head.len() as int) =~= head);
            assert(head.drop_first() =~= id);
            assert(t[0] == '$');
            lemma_path_text_props(path);
            if path.len() == 0 {
                assert(t =~= head);
                assert(path =~= Seq::<Seq<char>>::empty());
                lemma_slash_index(t, t.len() as int);
            } else {
                lemma_slash_index(t, head.len() as int);
                let p = t.subrange(head.len() as int, t.len() as int);
                assert(p =~= path_text(path));
                assert forall|i: int| 0 <= i < path.len() implies !(#[trigger] path[i]).contains('/') by {}
                lemma_split_path_text(path);
                assert(p != seq!['/']) by {
                    if p == seq!['/'] {
                        assert(p.len() == 1);
                    }
                }
                assert(path_form(p) == Some(path));
                assert(id_ref_form(t.subrange(0, head.len() as int)) == Some(id));
            }
            assert(subject_form(t) == Some(s));
        },
    }
}

} // verus!
