//! A library's schema and the module that pairs it with its routes.

use vstd::prelude::*;

use crate::dir::Dir;
use crate::error::{Error, ErrorKind};
use crate::ident::{link_valid, Link};
use crate::json::{json_view, jsons_view, lemma_jsons_view, lemma_members_view, members_view, Json, JsonV};
use crate::text::text_eq;

verus! {

/// The mathematical value of a [`LibrarySchema`].
pub struct SchemaV {
    pub id: Seq<char>,
    pub version: Seq<char>,
    pub dependencies: Seq<Seq<char>>,
}

/// The static description of a library: its link, its version and the
/// libraries it depends on.
#[derive(Clone, Debug, PartialEq)]
pub struct LibrarySchema {
    id: Link,
    version: String,
    dependencies: Vec<Link>,
}

/// The texts of a list of links.
pub open spec fn links_view(s: Seq<Link>) -> Seq<Seq<char>> {
    s.map_values(|l: Link| l@)
}

impl View for LibrarySchema {
    type V = SchemaV;

    closed spec fn view(&self) -> SchemaV {
        SchemaV { id: self.id@, version: self.version@, dependencies: links_view(self.dependencies@) }
    }
}

impl LibrarySchema {
    pub fn new(id: Link, version: String, dependencies: Vec<Link>) -> (r: LibrarySchema)
        ensures
            r@ == (SchemaV { id: id@, version: version@, dependencies: links_view(dependencies@) }),
    {
        LibrarySchema { id, version, dependencies }
    }

    pub fn id(&self) -> (r: &Link)
        ensures
            r@ == self@.id,
    {
        &self.id
    }

    pub fn version(&self) -> (r: &str)
        ensures
            r@ == self@.version,
    {
        self.version.as_str()
    }

    pub fn dependencies(&self) -> (r: &[Link])
        ensures
            links_view(r@) == self@.dependencies,
    {
        self.dependencies.as_slice()
    }
}

pub const SCHEMA_ID: &'static str = "id";

pub const SCHEMA_VERSION: &'static str = "version";

pub const SCHEMA_DEPENDENCIES: &'static str = "dependencies";

pub open spec fn strs_json(s: Seq<Seq<char>>) -> Seq<JsonV> {
    s.map_values(|t: Seq<char>| JsonV::Str(t))
}

/// The wire form of a schema: `{"id": ..., "version": ..., "dependencies": [...]}`.
pub open spec fn schema_json(s: SchemaV) -> JsonV {
    JsonV::Obj(
        seq![
            (SCHEMA_ID@, JsonV::Str(s.id)),
            (SCHEMA_VERSION@, JsonV::Str(s.version)),
            (SCHEMA_DEPENDENCIES@, JsonV::Arr(strs_json(s.dependencies))),
        ],
    )
}

/// A list of links on the wire.
pub open spec fn links_form(items: Seq<JsonV>) -> Option<Seq<Seq<char>>>
    decreases items.len(),
{
    if items.len() == 0 {
        Some(Seq::empty())
    } else {
        match (links_form(items.subrange(0, items.len() - 1)), items[items.len() - 1]) {
            (Some(acc), JsonV::Str(l)) => if link_valid(l) {
                Some(acc.push(l))
            } else {
                None
            },
            _ => None,
        }
    }
}

/// The schema fields read so far: the id, the version and the dependencies.
pub type SchemaFields = (Option<Seq<char>>, Option<Seq<char>>, Option<Seq<Seq<char>>>);

/// One entry of a schema map read into `f`: the id and the version may come
/// once only; the dependencies, if repeated, replace the earlier list; other
/// keys are skipped.
pub open spec fn schema_step(f: SchemaFields, k: Seq<char>, p: JsonV) -> Option<SchemaFields> {
    if k == SCHEMA_ID@ {
        match p {
            JsonV::Str(l) => if f.0 is None && link_valid(l) {
                Some((Some(l), f.1, f.2))
            } else {
                None
            },
            _ => None,
        }
    } else if k == SCHEMA_VERSION@ {
        match p {
            JsonV::Str(v) => if f.1 is None {
                Some((f.0, Some(v), f.2))
            } else {
                None
            },
            _ => None,
        }
    } else if k == SCHEMA_DEPENDENCIES@ {
        match p {
            JsonV::Arr(items) => match links_form(items) {
                Some(d) => Some((f.0, f.1, Some(d))),
                None => None,
            },
            _ => None,
        }
    } else {
        Some(f)
    }
}

pub open spec fn schema_fields(m: Seq<(Seq<char>, JsonV)>) -> Option<SchemaFields>
    decreases m.len(),
{
    if m.len() == 0 {
        Some((None, None, None))
    } else {
        match schema_fields(m.subrange(0, m.len() - 1)) {
            Some(f) => schema_step(f, m[m.len() - 1].0, m[m.len() - 1].1),
            None => None,
        }
    }
}

/// What a schema reads as from the wire: a map with an id and a version; the
/// dependencies default to none.
pub open spec fn schema_form(j: JsonV) -> Option<SchemaV> {
    match j {
        JsonV::Obj(m) => match schema_fields(m) {
            Some((Some(id), Some(v), d)) => Some(
                SchemaV {
                    id,
                    version: v,
                    dependencies: match d {
                        Some(d) => d,
                        None => Seq::empty(),
                    },
                },
            ),
            _ => None,
        },
        _ => None,
    }
}

proof fn lemma_links_round_trip(d: Seq<Seq<char>>)
    requires
        forall|i: int| 0 <= i < d.len() ==> link_valid(#[trigger] d[i]),
    ensures
        links_form(strs_json(d)) == Some(d),
    decreases d.len(),
{
    if d.len() > 0 {
        let t = d.subrange(0, d.len() - 1);
        assert forall|i: int| 0 <= i < t.len() implies link_valid(#[trigger] t[i]) by {
            assert(t[i] == d[i]);
        }
        lemma_links_round_trip(t);
        assert(strs_json(d).subrange(0, d.len() - 1) =~= strs_json(t));
        assert(t.push(d[d.len() - 1]) =~= d);
    } else {
        assert(d =~= Seq::<Seq<char>>::empty());
    }
}

/// Round trip: a schema whose links are valid reads back from its wire form
/// as itself.
pub proof fn schema_round_trip(s: SchemaV)
    requires
        link_valid(s.id),
        forall|i: int| 0 <= i < s.dependencies.len() ==> link_valid(#[trigger] s.dependencies[i]),
    ensures
        schema_form(schema_json(s)) == Some(s),
{
    reveal_strlit("id");
    reveal_strlit("version");
    reveal_strlit("dependencies");
    assert(SCHEMA_ID@ != SCHEMA_VERSION@) by {
        assert(SCHEMA_ID@.len() != SCHEMA_VERSION@.len());
    }
    assert(SCHEMA_ID@ != SCHEMA_DEPENDENCIES@) by {
        assert(SCHEMA_ID@.len() != SCHEMA_DEPENDENCIES@.len());
    }
    assert(SCHEMA_VERSION@ != SCHEMA_DEPENDENCIES@) by {
        assert(SCHEMA_VERSION@.len() != SCHEMA_DEPENDENCIES@.len());
    }
    lemma_links_round_trip(s.dependencies);
    let m = schema_json(s)->Obj_0;
    assert(m[0] == (SCHEMA_ID@, JsonV::Str(s.id)));
    assert(m[1] == (SCHEMA_VERSION@, JsonV::Str(s.version)));
    assert(m[2] == (SCHEMA_DEPENDENCIES@, JsonV::Arr(strs_json(s.dependencies))));
    assert(m.subrange(0, 1).subrange(0, 0) =~= Seq::<(Seq<char>, JsonV)>::empty());
    assert(m.subrange(0, 2).subrange(0, 1) =~= m.subrange(0, 1));
    assert(m.subrange(0, 3) =~= m);
    assert(m.subrange(0, 3).subrange(0, 2) =~= m.subrange(0, 2));
    assert(m.subrange(0, 1)[0] == m[0]);
    assert(m.subrange(0, 2)[1] == m[1]);
    assert(schema_fields(m.subrange(0, 1).subrange(0, 0)) == Some(
        (None::<Seq<char>>, None::<Seq<char>>, None::<Seq<Seq<char>>>),
    ));
    assert(schema_fields(m.subrange(0, 1)) == Some(
        (Some(s.id), None::<Seq<char>>, None::<Seq<Seq<char>>>),
    ));
    assert(schema_fields(m.subrange(0, 2)) == Some((Some(s.id), Some(s.version), None::<Seq<Seq<char>>>)));
}

/// A library's schema with its routes.
#[derive(Debug)]
pub struct LibraryModule<H> {
    schema: LibrarySchema,
    routes: Dir<H>,
}

/// The earlier name of [`LibraryModule`].
pub type StaticLibrary<H> = LibraryModule<H>;

impl<H> LibraryModule<H> {
    pub closed spec fn spec_schema(&self) -> SchemaV {
        self.schema@
    }

    pub closed spec fn spec_routes(&self) -> Dir<H> {
        self.routes
    }

    pub fn new(schema: LibrarySchema, routes: Dir<H>) -> (r: LibraryModule<H>)
        ensures
            r.spec_schema() == schema@,
            r.spec_routes() == routes,
    {
        LibraryModule { schema, routes }
    }

    pub fn schema(&self) -> (r: &LibrarySchema)
        ensures
            r@ == self.spec_schema(),
    {
        &self.schema
    }

    pub fn routes(&self) -> (r: &Dir<H>)
        ensures
            *r == self.spec_routes(),
    {
        &self.routes
    }
}

proof fn lemma_schema_fields_none(m: Seq<(Seq<char>, JsonV)>, i: int)
    requires
        0 <= i <= m.len(),
        schema_fields(m.subrange(0, i)) is None,
    ensures
        schema_fields(m) is None,
    decreases m.len() - i,
{
    if i == m.len() {
        assert(m.subrange(0, i) =~= m);
    } else {
        assert(m.subrange(0, i + 1).subrange(0, i) =~= m.subrange(0, i));
        lemma_schema_fields_none(m, i + 1);
    }
}

proof fn lemma_links_form_none(s: Seq<JsonV>, i: int)
    requires
        0 <= i <= s.len(),
        links_form(s.subrange(0, i)) is None,
    ensures
        links_form(s) is None,
    decreases s.len() - i,
{
    if i == s.len() {
        assert(s.subrange(0, i) =~= s);
    } else {
        assert(s.subrange(0, i + 1).subrange(0, i) =~= s.subrange(0, i));
        lemma_links_form_none(s, i + 1);
    }
}

fn links_of(items: &Vec<Json>) -> (r: Result<Vec<Link>, Error>)
    ensures
        r matches Ok(v) ==> links_form(jsons_view(items@)) == Some(links_view(v@)),
        r matches Err(e) ==> links_form(jsons_view(items@)) is None && e.kind() == ErrorKind::BadRequest,
{
    let ghost jv = jsons_view(items@);
    proof {
        lemma_jsons_view(items@);
        assert(jv.subrange(0, 0) =~= Seq::<JsonV>::empty());
    }
    let mut out: Vec<Link> = Vec::new();
    let mut i: usize = 0;
    proof {
        assert(links_view(out@) =~= Seq::<Seq<char>>::empty());
    }
    while i < items.len()
        invariant
            i <= items@.len(),
            jv == jsons_view(items@),
            jv.len() == items@.len(),
            forall|k: int| 0 <= k < items@.len() ==> #[trigger] jv[k] == json_view(items@[k]),
            links_form(jv.subrange(0, i as int)) == Some(links_view(out@)),
        decreases items@.len() - i,
    {
        proof {
            assert(jv.subrange(0, i as int + 1).subrange(0, i as int) =~= jv.subrange(0, i as int));
            assert(jv.subrange(0, i as int + 1)[i as int] == jv[i as int]);
        }
        match &items[i] {
            Json::Str(l) => match Link::parse(l.as_str()) {
                Ok(link) => {
                    let ghost before = out@;
                    out.push(link);
                    proof {
                        assert(links_view(out@) =~= links_view(before).push(l@));
                    }
                },
                Err(e) => {
                    proof {
                        lemma_links_form_none(jv, i as int + 1);
                    }
                    return Err(e);
                },
            },
            _ => {
                proof {
                    lemma_links_form_none(jv, i as int + 1);
                }
                return Err(Error::bad_request("invalid dependency (expected a link)".to_owned()));
            },
        }
        i = i + 1;
    }
    proof {
        assert(jv.subrange(0, items@.len() as int) =~= jv);
    }
    Ok(out)
}

/// The schema fields of exec values.
spec fn schema_fields_view(id: Option<Link>, version: Option<String>, deps: Option<Vec<Link>>) -> SchemaFields {
    (
        match id {
            Some(l) => Some(l@),
            None => None,
        },
        match version {
            Some(v) => Some(v@),
            None => None,
        },
        match deps {
            Some(d) => Some(links_view(d@)),
            None => None,
        },
    )
}

impl LibrarySchema {
    /// The wire form, `{"id": ..., "version": ..., "dependencies": [...]}`.
    pub fn to_json(&self) -> (r: Json)
        ensures
            r@ == schema_json(self@),
    {
        let mut deps: Vec<Json> = Vec::new();
        let mut i: usize = 0;
        proof {
            assert(jsons_view(deps@) =~= strs_json(links_view(self.dependencies@).subrange(0, 0)));
        }
        while i < self.dependencies.len()
            invariant
                i <= self.dependencies@.len(),
                jsons_view(deps@) == strs_json(links_view(self.dependencies@).subrange(0, i as int)),
            decreases self.dependencies@.len() - i,
        {
            let x = Json::Str(self.dependencies[i].to_text());
            let ghost before = deps@;
            deps.push(x);
            proof {
                crate::encode::lemma_jsons_push(before, x);
                assert(before.push(x) =~= deps@);
                assert(strs_json(links_view(self.dependencies@).subrange(0, i as int + 1)) =~= strs_json(
                    links_view(self.dependencies@).subrange(0, i as int),
                ).push(JsonV::Str(self.dependencies@[i as int]@)));
            }
            i = i + 1;
        }
        proof {
            assert(links_view(self.dependencies@).subrange(0, self.dependencies@.len() as int) =~= links_view(self.dependencies@));
        }
        let mut m: Vec<(String, Json)> = Vec::new();
        let ghost e0 = m@;
        m.push((SCHEMA_ID.to_owned(), Json::Str(self.id.to_text())));
        let ghost e1 = m@;
        m.push((SCHEMA_VERSION.to_owned(), Json::Str(self.version.clone())));
        let ghost e2 = m@;
        m.push((SCHEMA_DEPENDENCIES.to_owned(), Json::Arr(deps)));
        proof {
            crate::encode::lemma_members_push(e0, e1[0]);
            assert(e0.push(e1[0]) =~= e1);
            assert(members_view(e0) =~= Seq::<(Seq<char>, JsonV)>::empty());
            crate::encode::lemma_members_push(e1, e2[1]);
            assert(e1.push(e2[1]) =~= e2);
            crate::encode::lemma_members_push(e2, m@[2]);
            assert(e2.push(m@[2]) =~= m@);
            assert(members_view(m@) =~= schema_json(self@)->Obj_0);
        }
        Json::Obj(m)
    }

    /// Reads the wire form; fails with `BadRequest` where [`schema_form`]
    /// has no value.
    pub fn from_json(j: &Json) -> (r: Result<LibrarySchema, Error>)
        ensures
            r matches Ok(s) ==> schema_form(j@) == Some(s@),
            r matches Err(e) ==> schema_form(j@) is None && e.kind() == ErrorKind::BadRequest,
    {
        let m = match j {
            Json::Obj(m) => m,
            _ => {
                return Err(Error::bad_request("expected a library schema map".to_owned()));
            },
        };
        let ghost mv = members_view(m@);
        proof {
            lemma_members_view(m@);
            assert(mv.subrange(0, 0) =~= Seq::<(Seq<char>, JsonV)>::empty());
        }
        let mut id: Option<Link> = None;
        let mut version: Option<String> = None;
        let mut deps: Option<Vec<Link>> = None;
        let mut i: usize = 0;
        while i < m.len()
            invariant
                i <= m@.len(),
                mv == members_view(m@),
                j@ == JsonV::Obj(mv),
                mv.len() == m@.len(),
                forall|k: int| 0 <= k < m@.len() ==> #[trigger] mv[k] == (m@[k].0@, json_view(m@[k].1)),
                schema_fields(mv.subrange(0, i as int)) == Some(schema_fields_view(id, version, deps)),
            decreases m@.len() - i,
        {
            let k = m[i].0.as_str();
            let p = &m[i].1;
            proof {
                assert(mv.subrange(0, i as int + 1).subrange(0, i as int) =~= mv.subrange(0, i as int));
                assert(mv.subrange(0, i as int + 1)[i as int] == mv[i as int]);
                reveal_strlit("id");
                reveal_strlit("version");
                reveal_strlit("dependencies");
            }
            if text_eq(k, SCHEMA_ID) {
                let ok = match p {
                    Json::Str(l) => {
                        if id.is_some() {
                            Err(Error::bad_request("duplicate id field".to_owned()))
                        } else {
                            match Link::parse(l.as_str()) {
                                Ok(link) => {
                                    id = Some(link);
                                    Ok(())
                                },
                                Err(e) => Err(e),
                            }
                        }
                    },
                    _ => Err(Error::bad_request("invalid id (expected a link)".to_owned())),
                };
                if let Err(e) = ok {
                    proof {
                        lemma_schema_fields_none(mv, i as int + 1);
                    }
                    return Err(e);
                }
            } else if text_eq(k, SCHEMA_VERSION) {
                let ok = match p {
                    Json::Str(v) => {
                        if version.is_some() {
                            Err(Error::bad_request("duplicate version field".to_owned()))
                        } else {
                            version = Some(v.clone());
                            Ok(())
                        }
                    },
                    _ => Err(Error::bad_request("invalid version (expected a string)".to_owned())),
                };
                if let Err(e) = ok {
                    proof {
                        lemma_schema_fields_none(mv, i as int + 1);
                    }
                    return Err(e);
                }
            } else if text_eq(k, SCHEMA_DEPENDENCIES) {
                let ok = match p {
                    Json::Arr(items) => match links_of(items) {
                        Ok(d) => {
                            deps = Some(d);
                            Ok(())
                        },
                        Err(e) => Err(e),
                    },
                    _ => Err(Error::bad_request("invalid dependencies (expected a list)".to_owned())),
                };
                if let Err(e) = ok {
                    proof {
                        lemma_schema_fields_none(mv, i as int + 1);
                    }
                    return Err(e);
                }
            }
            i = i + 1;
        }
        proof {
            assert(mv.subrange(0, m@.len() as int) =~= mv);
        }
        match (id, version) {
            (Some(l), Some(v)) => {
                let d = match deps {
                    Some(d) => d,
                    None => {
                        let e: Vec<Link> = Vec::new();
                        proof {
                            assert(links_view(e@) =~= Seq::<Seq<char>>::empty());
                        }
                        e
                    },
                };
                Ok(LibrarySchema { id: l, version: v, dependencies: d })
            },
            _ => Err(Error::bad_request("missing the id or the version of the library schema".to_owned())),
        }
    }
}

} // verus!
