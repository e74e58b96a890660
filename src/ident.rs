//! Identifiers, scoped references and links.

use vstd::prelude::*;

use crate::error::{Error, ErrorKind};
use crate::text::{chars_of, concat, text_of};

verus! {

/// Whether the text is an identifier that hr_id accepts.
pub uninterp spec fn id_ok(s: Seq<char>) -> bool;

/// Whether the text is a link that pathlink accepts.
pub uninterp spec fn link_ok(s: Seq<char>) -> bool;

/// Relies on hr_id's `Id::from_str`, which refuses the empty string and any
/// text that holds one of its reserved patterns, `/` and `$` among them.
#[verifier::external_body]
fn id_parses(s: &str) -> (r: bool)
    ensures
        r == id_ok(s@),
        s@.len() == 0 ==> !r,
        s@.contains('/') ==> !r,
        s@.contains('$') ==> !r,
{
    s.parse::<hr_id::Id>().is_ok()
}

/// The number of `/` characters in `s`.
pub open spec fn slash_count(s: Seq<char>) -> nat
    decreases s.len(),
{
    if s.len() == 0 {
        0
    } else {
        (if s[0] == '/' {
            1nat
        } else {
            0nat
        }) + slash_count(s.drop_first())
    }
}

/// `s` without one trailing `/`, if it has one.
pub open spec fn without_trailing_slash(s: Seq<char>) -> Seq<char> {
    if s.len() > 0 && s[s.len() - 1] == '/' {
        s.drop_last()
    } else {
        s
    }
}

/// A text that pathlink's `Link::from_str` reads without panicking: it starts
/// with `/`, or, without one trailing `/`, it splits at `/` into at least
/// three pieces (it holds at least two `/`). On a shorter text with a valid
/// protocol (`http://`) the parser slices three pieces that are not there.
pub open spec fn link_text_safe(s: Seq<char>) -> bool {
    (s.len() > 0 && s[0] == '/') || slash_count(without_trailing_slash(s)) >= 2
}

/// A text that `Link::parse` accepts.
pub open spec fn link_valid(s: Seq<char>) -> bool {
    link_text_safe(s) && link_ok(s)
}

/// Whether `s` is a text that pathlink's link parser reads without panicking.
pub fn link_text_is_safe(s: &str) -> (r: bool)
    ensures
        r == link_text_safe(s@),
{
    let cs = chars_of(s);
    if cs.len() > 0 && cs[0] == '/' {
        return true;
    }
    let end: usize = if cs.len() > 0 && cs[cs.len() - 1] == '/' {
        cs.len() - 1
    } else {
        cs.len()
    };
    let ghost t = cs@.subrange(0, end as int);
    proof {
        if cs.len() > 0 && cs@[cs.len() - 1] == '/' {
            assert(t =~= s@.drop_last());
        } else {
            assert(t =~= s@);
        }
        assert(t.subrange(end as int, end as int) =~= Seq::<char>::empty());
    }
    let mut count: usize = 0;
    let mut i: usize = end;
    while i > 0
        invariant
            i <= end <= cs@.len(),
            t == cs@.subrange(0, end as int),
            count <= end - i,
            count == slash_count(t.subrange(i as int, end as int)),
        decreases i,
    {
        i = i - 1;
        proof {
            assert(t.subrange(i as int, end as int).drop_first() =~= t.subrange(i as int + 1, end as int));
            assert(t.subrange(i as int, end as int)[0] == cs@[i as int]);
        }
        if cs[i] == '/' {
            count = count + 1;
        }
    }
    proof {
        assert(t.subrange(0, end as int) =~= t);
    }
    count >= 2
}

/// Relies on pathlink's `Link::from_str`: whether the text is a link. The
/// parser panics on a text with a valid protocol and fewer than three pieces
/// (`"http://"`), which `requires` leaves out.
#[verifier::external_body]
fn link_parses(s: &str) -> (r: bool)
    requires
        link_text_safe(s@),
    ensures
        r == link_ok(s@),
{
    s.parse::<pathlink::Link>().is_ok()
}

/// A valid identifier: accepted by hr_id, hence non-empty and free of `/` and `$`.
pub open spec fn id_wf(s: Seq<char>) -> bool {
    id_ok(s) && s.len() > 0 && !s.contains('/') && !s.contains('$')
}

/// A non-empty identifier, usable as a map key or a path segment.
#[derive(Clone, Debug, PartialEq)]
pub struct Id {
    inner: String,
}

/// A segment of a path: an identifier.
pub type PathSegment = Id;

impl View for Id {
    type V = Seq<char>;

    closed spec fn view(&self) -> Seq<char> {
        self.inner@
    }
}

impl Id {
    /// Parses an identifier; fails with `BadRequest` unless hr_id accepts the text.
    pub fn parse(s: &str) -> (r: Result<Id, Error>)
        ensures
            r is Ok <==> id_ok(s@),
            r matches Ok(id) ==> id@ == s@ && id_wf(id@),
            r matches Err(e) ==> e.kind() == ErrorKind::BadRequest,
    {
        if id_parses(s) {
            Ok(Id { inner: s.to_owned() })
        } else {
            Err(Error::bad_request(concat("invalid identifier: ", s)))
        }
    }

    pub fn as_str(&self) -> (r: &str)
        ensures
            r@ == self@,
    {
        self.inner.as_str()
    }

    /// A copy of this identifier.
    pub fn duplicate(&self) -> (r: Id)
        ensures
            r@ == self@,
    {
        Id { inner: self.inner.clone() }
    }

    /// The text of this identifier.
    pub fn to_text(&self) -> (r: String)
        ensures
            r@ == self@,
    {
        self.inner.clone()
    }
}

/// The text form of a scoped reference: `$` and the identifier.
pub open spec fn id_ref_text(id: Seq<char>) -> Seq<char> {
    seq!['$'] + id
}

/// What `IdRef::parse` makes of a text: the identifier after the `$`.
pub open spec fn id_ref_form(s: Seq<char>) -> Option<Seq<char>> {
    if s.len() >= 2 && s[0] == '$' && id_ok(s.drop_first()) {
        Some(s.drop_first())
    } else {
        None
    }
}

/// A reference to a named value in a scope, written `$name`.
#[derive(Clone, Debug, PartialEq)]
pub struct IdRef {
    id: Id,
}

impl View for IdRef {
    type V = Seq<char>;

    /// The identifier, without the `$`.
    closed spec fn view(&self) -> Seq<char> {
        self.id@
    }
}

impl IdRef {
    pub fn new(id: Id) -> (r: IdRef)
        ensures
            r@ == id@,
    {
        IdRef { id }
    }

    pub fn id(&self) -> (r: &Id)
        ensures
            r@ == self@,
    {
        &self.id
    }

    pub fn as_str(&self) -> (r: &str)
        ensures
            r@ == self@,
    {
        self.id.as_str()
    }

    pub fn duplicate(&self) -> (r: IdRef)
        ensures
            r@ == self@,
    {
        IdRef { id: self.id.duplicate() }
    }

    /// Parses `$name`; fails with `BadRequest` on any other text.
    pub fn parse(s: &str) -> (r: Result<IdRef, Error>)
        ensures
            r is Ok <==> id_ref_form(s@) is Some,
            r matches Ok(x) ==> Some(x@) == id_ref_form(s@),
            r matches Err(e) ==> e.kind() == ErrorKind::BadRequest,
    {
        let cs = chars_of(s);
        if cs.len() < 2 || cs[0] != '$' {
            return Err(Error::bad_request(concat("invalid scoped reference: ", s)));
        }
        let rest = text_of(&cs, 1, cs.len());
        proof {
            assert(rest@ =~= s@.drop_first());
        }
        match Id::parse(rest.as_str()) {
            Ok(id) => Ok(IdRef { id }),
            Err(e) => Err(e),
        }
    }

    /// The text form, `$name`.
    pub fn to_text(&self) -> (r: String)
        ensures
            r@ == id_ref_text(self@),
    {
        proof {
            reveal_strlit("$");
        }
        concat("$", self.id.as_str())
    }
}

/// A link: an absolute path, optionally with a host, kept as its text.
#[derive(Clone, Debug, PartialEq)]
pub struct Link {
    text: String,
}

impl View for Link {
    type V = Seq<char>;

    closed spec fn view(&self) -> Seq<char> {
        self.text@
    }
}

impl Link {
    /// Parses a link; fails with `BadRequest` unless the text is safe for
    /// pathlink's parser and pathlink accepts it.
    pub fn parse(s: &str) -> (r: Result<Link, Error>)
        ensures
            r is Ok <==> link_valid(s@),
            r matches Ok(l) ==> l@ == s@,
            r matches Err(e) ==> e.kind() == ErrorKind::BadRequest,
    {
        if link_text_is_safe(s) && link_parses(s) {
            Ok(Link { text: s.to_owned() })
        } else {
            Err(Error::bad_request(concat("invalid link: ", s)))
        }
    }

    pub fn as_str(&self) -> (r: &str)
        ensures
            r@ == self@,
    {
        self.text.as_str()
    }

    pub fn duplicate(&self) -> (r: Link)
        ensures
            r@ == self@,
    {
        Link { text: self.text.clone() }
    }

    pub fn to_text(&self) -> (r: String)
        ensures
            r@ == self@,
    {
        self.text.clone()
    }

    /// Whether two links have the same text.
    pub fn same(&self, other: &Link) -> (r: bool)
        ensures
            r == (self@ == other@),
    {
        self.text == other.text
    }
}

} // verus!
