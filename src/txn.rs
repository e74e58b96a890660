//! Transaction identity: network time, transaction ids, capability claims
//! and the header that carries them across process boundaries.

use vstd::prelude::*;

use crate::error::{Error, ErrorKind};
use crate::ident::{link_valid, Link};
use crate::json::{json_view, lemma_jsons_view, lemma_members_view, members_view, Json, JsonV};
use crate::number::{dec_text, format_uint, lemma_dec_text, lemma_uint_round_trip, parse_uint, uint_form};
use crate::text::{chars_of, concat, text_eq, text_of};

verus! {

/// Nanoseconds since the Unix epoch.
#[derive(Clone, Copy, Debug, PartialEq, Eq, Structural, PartialOrd, Ord, Hash)]
pub struct NetworkTime(u64);

impl NetworkTime {
    pub closed spec fn nanos(&self) -> u64 {
        self.0
    }

    pub fn from_nanos(nanos: u64) -> (r: NetworkTime)
        ensures
            r.nanos() == nanos,
    {
        NetworkTime(nanos)
    }

    pub fn as_nanos(&self) -> (r: u64)
        ensures
            r == self.nanos(),
    {
        self.0
    }

    /// The decimal text of the time.
    pub fn to_text(&self) -> (r: String)
        ensures
            r@ == dec_text(self.nanos() as nat),
    {
        let v = format_uint(self.0);
        text_of(&v, 0, v.len())
    }

    /// Reads the decimal text of a time; fails with `BadRequest` unless the
    /// text is an unsigned 64-bit integer.
    pub fn parse(s: &str) -> (r: Result<NetworkTime, Error>)
        ensures
            r is Ok <==> uint_form(s@, u64::MAX as int) is Some,
            r matches Ok(t) ==> uint_form(s@, u64::MAX as int) == Some(t.nanos() as int),
            r matches Err(e) ==> e.kind() == ErrorKind::BadRequest,
    {
        let cs = chars_of(s);
        proof {
            assert(cs@.subrange(0, cs@.len() as int) =~= s@);
        }
        match parse_uint(&cs, 0, cs.len(), u64::MAX) {
            Some(n) => Ok(NetworkTime(n)),
            None => Err(Error::bad_request(concat("invalid NetworkTime: ", s))),
        }
    }
}

/// The unique id of a transaction: its timestamp, a nonce that breaks ties,
/// and an opaque trace that the text form leaves out.
#[derive(Clone, Copy, Debug, PartialEq, Eq, PartialOrd, Ord, Hash)]
pub struct TxnId {
    timestamp: NetworkTime,
    nonce: u16,
    trace: [u8; 32],
}

/// The text form of a transaction id: `{timestamp}-{nonce}`.
pub open spec fn txn_id_text(timestamp: u64, nonce: u16) -> Seq<char> {
    dec_text(timestamp as nat) + seq!['-'] + dec_text(nonce as nat)
}

/// The index of the first `-` in `s`, or -1.
pub open spec fn dash_index(s: Seq<char>) -> int
    decreases s.len(),
{
    if s.len() == 0 {
        -1
    } else if s[0] == '-' {
        0
    } else {
        let k = dash_index(s.drop_first());
        if k < 0 {
            -1
        } else {
            k + 1
        }
    }
}

/// What `TxnId::parse` reads from a text: split at the first `-`, an unsigned
/// 64-bit timestamp and an unsigned 16-bit nonce.
pub open spec fn txn_id_form(s: Seq<char>) -> Option<(u64, u16)> {
    let i = dash_index(s);
    if i < 0 {
        None
    } else {
        match (uint_form(s.subrange(0, i), u64::MAX as int), uint_form(s.subrange(i + 1, s.len() as int), u16::MAX as int)) {
            (Some(t), Some(n)) => Some((t as u64, n as u16)),
            _ => None,
        }
    }
}

proof fn lemma_dash_index(s: Seq<char>, i: int)
    requires
        0 <= i <= s.len(),
        forall|j: int| 0 <= j < i ==> s[j] != '-',
    ensures
        i < s.len() && s[i] == '-' ==> dash_index(s) == i,
        i == s.len() ==> dash_index(s) == -1,
    decreases i,
{
    if i > 0 {
        lemma_dash_index(s.drop_first(), i - 1);
    }
}

impl TxnId {
    pub closed spec fn spec_timestamp(&self) -> u64 {
        self.timestamp.0
    }

    pub closed spec fn spec_nonce(&self) -> u16 {
        self.nonce
    }

    pub closed spec fn spec_trace(&self) -> Seq<u8> {
        self.trace@
    }

    /// An id with the given timestamp and nonce and a zero trace.
    pub fn from_parts(timestamp: NetworkTime, nonce: u16) -> (r: TxnId)
        ensures
            r.spec_timestamp() == timestamp.nanos(),
            r.spec_nonce() == nonce,
            r.spec_trace() == Seq::new(32, |i: int| 0u8),
    {
        let r = TxnId { timestamp, nonce, trace: [0u8; 32] };
        assert(r.trace@ =~= Seq::new(32, |i: int| 0u8));
        r
    }

    /// This id with the given trace.
    pub fn with_trace(self, trace: [u8; 32]) -> (r: TxnId)
        ensures
            r.spec_timestamp() == self.spec_timestamp(),
            r.spec_nonce() == self.spec_nonce(),
            r.spec_trace() == trace@,
    {
        TxnId { timestamp: self.timestamp, nonce: self.nonce, trace }
    }

    pub fn timestamp(&self) -> (r: NetworkTime)
        ensures
            r.nanos() == self.spec_timestamp(),
    {
        self.timestamp
    }

    pub fn nonce(&self) -> (r: u16)
        ensures
            r == self.spec_nonce(),
    {
        self.nonce
    }

    pub fn trace_bytes(&self) -> (r: &[u8; 32])
        ensures
            r@ == self.spec_trace(),
    {
        &self.trace
    }

    /// The text form, `{timestamp}-{nonce}`; the trace is left out.
    pub fn to_text(&self) -> (r: String)
        ensures
            r@ == txn_id_text(self.spec_timestamp(), self.spec_nonce()),
    {
        let mut v = format_uint(self.timestamp.0);
        v.push('-');
        let n = format_uint(self.nonce as u64);
        let mut i: usize = 0;
        let ghost head = v@;
        while i < n.len()
            invariant
                i <= n@.len(),
                v@ == head + n@.subrange(0, i as int),
            decreases n@.len() - i,
        {
            v.push(n[i]);
            proof {
                assert(n@.subrange(0, i as int + 1) =~= n@.subrange(0, i as int).push(n@[i as int]));
            }
            i = i + 1;
        }
        proof {
            assert(n@.subrange(0, n@.len() as int) =~= n@);
            assert(v@ =~= txn_id_text(self.spec_timestamp(), self.spec_nonce()));
        }
        text_of(&v, 0, v.len())
    }

    /// Reads `{timestamp}-{nonce}`; fails with `BadRequest` where
    /// [`txn_id_form`] has no value. The trace is zero.
    pub fn parse(s: &str) -> (r: Result<TxnId, Error>)
        ensures
            r is Ok <==> txn_id_form(s@) is Some,
            r matches Ok(id) ==> txn_id_form(s@) == Some((id.spec_timestamp(), id.spec_nonce()))
                && id.spec_trace() == Seq::new(32, |i: int| 0u8),
            r matches Err(e) ==> e.kind() == ErrorKind::BadRequest,
    {
        let cs = chars_of(s);
        let mut i: usize = 0;
        while i < cs.len() && cs[i] != '-'
            invariant
                i <= cs@.len(),
                cs@ == s@,
                forall|j: int| 0 <= j < i ==> cs@[j] != '-',
            decreases cs@.len() - i,
        {
            i = i + 1;
        }
        proof {
            lemma_dash_index(s@, i as int);
        }
        if i == cs.len() {
            return Err(Error::bad_request(concat("transaction ids must look like <timestamp>-<nonce>: ", s)));
        }
        let ts = match parse_uint(&cs, 0, i, u64::MAX) {
            Some(t) => t,
            None => {
                return Err(Error::bad_request(concat("invalid transaction id timestamp: ", s)));
            },
        };
        let nonce = match parse_uint(&cs, i + 1, cs.len(), u16::MAX as u64) {
            Some(n) => n as u16,
            None => {
                return Err(Error::bad_request(concat("invalid transaction id nonce: ", s)));
            },
        };
        Ok(TxnId::from_parts(NetworkTime(ts), nonce))
    }
}

/// The text form of a transaction id reads back as that id, less its trace.
pub proof fn txn_id_text_round_trip(timestamp: u64, nonce: u16)
    ensures
        txn_id_form(txn_id_text(timestamp, nonce)) == Some((timestamp, nonce)),
{
    let a = dec_text(timestamp as nat);
    let b = dec_text(nonce as nat);
    let t = txn_id_text(timestamp, nonce);
    lemma_dec_text(timestamp as nat);
    lemma_dec_text(nonce as nat);
    assert forall|j: int| 0 <= j < a.len() implies t[j] != '-' by {
        assert(t[j] == a[j]);
        assert(a.contains(a[j]));
    }
    assert(t[a.len() as int] == '-');
    lemma_dash_index(t, a.len() as int);
    assert(t.subrange(0, a.len() as int) =~= a);
    assert(t.subrange(a.len() as int + 1, t.len() as int) =~= b);
    lemma_uint_round_trip(timestamp as nat, u64::MAX as int);
    lemma_uint_round_trip(nonce as nat, u16::MAX as int);
}

/// A capability: a link and the permission bits granted on it.
#[derive(Clone, Debug, PartialEq)]
pub struct Claim {
    pub link: Link,
    pub mask: u32,
}

impl Claim {
    pub fn new(link: Link, mask: u32) -> (r: Claim)
        ensures
            r.link@ == link@,
            r.mask == mask,
    {
        Claim { link, mask }
    }

    /// Whether this claim grants `required` on `link`: the link is the
    /// claim's own, and every bit of `required` is set in the mask.
    pub fn allows(&self, link: &Link, required: u32) -> (r: bool)
        ensures
            r == (self.link@ == link@ && (self.mask & required) == required),
    {
        if !self.link.same(link) {
            return false;
        }
        (self.mask & required) == required
    }

    pub fn duplicate(&self) -> (r: Claim)
        ensures
            r.link@ == self.link@,
            r.mask == self.mask,
    {
        Claim { link: self.link.duplicate(), mask: self.mask }
    }
}

/// Whatever plays the part of a transaction: its id, its timestamp and the
/// claim of its caller.
pub trait Transaction {
    fn id(&self) -> TxnId;

    fn timestamp(&self) -> NetworkTime;

    fn claim(&self) -> &Claim;
}

/// The mathematical value of a [`TxnHeader`].
pub struct HeaderV {
    pub id_timestamp: u64,
    pub id_nonce: u16,
    pub id_trace: Seq<u8>,
    pub timestamp: u64,
    pub link: Seq<char>,
    pub mask: u32,
}

/// The context of a transaction, as carried across process boundaries.
#[derive(Clone, Debug, PartialEq)]
pub struct TxnHeader {
    id: TxnId,
    timestamp: NetworkTime,
    claim: Claim,
}

impl View for TxnHeader {
    type V = HeaderV;

    closed spec fn view(&self) -> HeaderV {
        HeaderV {
            id_timestamp: self.id.timestamp.0,
            id_nonce: self.id.nonce,
            id_trace: self.id.trace@,
            timestamp: self.timestamp.0,
            link: self.claim.link@,
            mask: self.claim.mask,
        }
    }
}

impl TxnHeader {
    pub fn new(id: TxnId, timestamp: NetworkTime, claim: Claim) -> (r: TxnHeader)
        ensures
            r@ == (HeaderV {
                id_timestamp: id.spec_timestamp(),
                id_nonce: id.spec_nonce(),
                id_trace: id.spec_trace(),
                timestamp: timestamp.nanos(),
                link: claim.link@,
                mask: claim.mask,
            }),
    {
        TxnHeader { id, timestamp, claim }
    }

    /// The header of a transaction.
    pub fn from_transaction<T: Transaction>(txn: &T) -> (r: TxnHeader) {
        TxnHeader::new(txn.id(), txn.timestamp(), txn.claim().duplicate())
    }

    pub fn id(&self) -> (r: TxnId)
        ensures
            r.spec_timestamp() == self@.id_timestamp,
            r.spec_nonce() == self@.id_nonce,
            r.spec_trace() == self@.id_trace,
    {
        self.id
    }

    pub fn timestamp(&self) -> (r: NetworkTime)
        ensures
            r.nanos() == self@.timestamp,
    {
        self.timestamp
    }

    pub fn claim(&self) -> (r: &Claim)
        ensures
            r.link@ == self@.link,
            r.mask == self@.mask,
    {
        &self.claim
    }
}

// ---------------------------------------------------------------- wire form

pub const HEADER_ID: &'static str = "id";

pub const HEADER_TIMESTAMP: &'static str = "timestamp";

pub const HEADER_CLAIM: &'static str = "claim";

/// The wire form of a header: `{"id": "<ts>-<nonce>", "timestamp": <ts>,
/// "claim": ["<link>", <mask>]}`.
pub open spec fn header_json(h: HeaderV) -> JsonV {
    JsonV::Obj(
        seq![
            (HEADER_ID@, JsonV::Str(txn_id_text(h.id_timestamp, h.id_nonce))),
            (HEADER_TIMESTAMP@, JsonV::UInt(h.timestamp)),
            (HEADER_CLAIM@, JsonV::Arr(seq![JsonV::Str(h.link), JsonV::UInt(h.mask as u64)])),
        ],
    )
}

/// An unsigned integer of at most `max` on the wire.
pub open spec fn json_uint(p: JsonV, max: u64) -> Option<u64> {
    match p {
        JsonV::UInt(u) => if u <= max {
            Some(u)
        } else {
            None
        },
        JsonV::Int(i) => if 0 <= i && i <= max {
            Some(i as u64)
        } else {
            None
        },
        _ => None,
    }
}

/// The header fields read so far: the id, the timestamp and the claim.
pub type HeaderFields = (Option<(u64, u16)>, Option<u64>, Option<(Seq<char>, u32)>);

/// A claim as a pair `[link, mask]`, the mask at most `max`.
pub open spec fn claim_form(p: JsonV, max: u64) -> Option<(Seq<char>, u32)> {
    match p {
        JsonV::Arr(items) => if items.len() == 2 {
            match (items[0], json_uint(items[1], max)) {
                (JsonV::Str(l), Some(m)) => if link_valid(l) {
                    Some((l, m as u32))
                } else {
                    None
                },
                _ => None,
            }
        } else {
            None
        },
        _ => None,
    }
}

/// One entry of a header map read into `f`; unknown keys are skipped, and a
/// repeated key replaces the earlier value.
pub open spec fn header_step(f: HeaderFields, k: Seq<char>, p: JsonV) -> Option<HeaderFields> {
    if k == HEADER_ID@ {
        match p {
            JsonV::Str(s) => match txn_id_form(s) {
                Some(x) => Some((Some(x), f.1, f.2)),
                None => None,
            },
            _ => None,
        }
    } else if k == HEADER_TIMESTAMP@ {
        match json_uint(p, u64::MAX) {
            Some(t) => Some((f.0, Some(t), f.2)),
            None => None,
        }
    } else if k == HEADER_CLAIM@ {
        match claim_form(p, u32::MAX as u64) {
            Some(c) => Some((f.0, f.1, Some(c))),
            None => None,
        }
    } else {
        Some(f)
    }
}

pub open spec fn header_fields(m: Seq<(Seq<char>, JsonV)>) -> Option<HeaderFields>
    decreases m.len(),
{
    if m.len() == 0 {
        Some((None, None, None))
    } else {
        match header_fields(m.subrange(0, m.len() - 1)) {
            Some(f) => header_step(f, m[m.len() - 1].0, m[m.len() - 1].1),
            None => None,
        }
    }
}

/// What a header reads as from the wire: a map that gives all three fields;
/// the id's trace is zero.
pub open spec fn header_form(j: JsonV) -> Option<HeaderV> {
    match j {
        JsonV::Obj(m) => match header_fields(m) {
            Some((Some(id), Some(t), Some(c))) => Some(
                HeaderV {
                    id_timestamp: id.0,
                    id_nonce: id.1,
                    id_trace: Seq::new(32, |i: int| 0u8),
                    timestamp: t,
                    link: c.0,
                    mask: c.1,
                },
            ),
            _ => None,
        },
        _ => None,
    }
}

/// Round trip: a header whose link is valid and whose id has a zero trace
/// reads back from its wire form as itself.
pub proof fn header_round_trip(h: HeaderV)
    requires
        link_valid(h.link),
        h.id_trace == Seq::new(32, |i: int| 0u8),
    ensures
        header_form(header_json(h)) == Some(h),
{
    reveal_strlit("id");
    reveal_strlit("timestamp");
    reveal_strlit("claim");
    let m = header_json(h)->Obj_0;
    assert(HEADER_ID@ != HEADER_TIMESTAMP@) by {
        assert(HEADER_ID@.len() != HEADER_TIMESTAMP@.len());
    }
    assert(HEADER_ID@ != HEADER_CLAIM@) by {
        assert(HEADER_ID@.len() != HEADER_CLAIM@.len());
    }
    assert(HEADER_TIMESTAMP@ != HEADER_CLAIM@) by {
        assert(HEADER_TIMESTAMP@.len() != HEADER_CLAIM@.len());
    }
    txn_id_text_round_trip(h.id_timestamp, h.id_nonce);
    assert(m.subrange(0, 0) =~= Seq::<(Seq<char>, JsonV)>::empty());
    assert(m.subrange(0, 1).subrange(0, 0) =~= Seq::<(Seq<char>, JsonV)>::empty());
    assert(m.subrange(0, 2).subrange(0, 1) =~= m.subrange(0, 1));
    assert(m.subrange(0, 3) =~= m);
    assert(m.subrange(0, 3).subrange(0, 2) =~= m.subrange(0, 2));
    let items = seq![JsonV::Str(h.link), JsonV::UInt(h.mask as u64)];
    assert(items[0] == JsonV::Str(h.link) && items[1] == JsonV::UInt(h.mask as u64));
    assert(claim_form(JsonV::Arr(items), u32::MAX as u64) == Some((h.link, h.mask)));
    assert(m[0] == (HEADER_ID@, JsonV::Str(txn_id_text(h.id_timestamp, h.id_nonce))));
    assert(m[1] == (HEADER_TIMESTAMP@, JsonV::UInt(h.timestamp)));
    assert(m[2] == (HEADER_CLAIM@, JsonV::Arr(items)));
    assert(m.subrange(0, 1)[0] == m[0]);
    assert(header_fields(m.subrange(0, 1).subrange(0, 0)) == Some(
        (None::<(u64, u16)>, None::<u64>, None::<(Seq<char>, u32)>),
    ));
    assert(m.subrange(0, 2)[1] == m[1]);
    assert(header_fields(m.subrange(0, 1)) == Some(
        (Some((h.id_timestamp, h.id_nonce)), None::<u64>, None::<(Seq<char>, u32)>),
    ));
    assert(header_fields(m.subrange(0, 2)) == Some(
        (Some((h.id_timestamp, h.id_nonce)), Some(h.timestamp), None::<(Seq<char>, u32)>),
    ));
}

fn json_uint_of(p: &Json, max: u64) -> (r: Option<u64>)
    ensures
        r == json_uint(p@, max),
{
    match p {
        Json::UInt(u) => if *u <= max {
            Some(*u)
        } else {
            None
        },
        Json::Int(i) => if 0 <= *i && (*i as u64) <= max {
            Some(*i as u64)
        } else {
            None
        },
        _ => None,
    }
}

/// Reads a claim as a pair `[link, mask]`, the mask at most `max`.
fn claim_of(p: &Json, max: u64) -> (r: Result<Claim, Error>)
    requires
        max <= u32::MAX,
    ensures
        r matches Ok(c) ==> claim_form(p@, max) == Some((c.link@, c.mask)),
        r matches Err(e) ==> claim_form(p@, max) is None && e.kind() == ErrorKind::BadRequest,
{
    match p {
        Json::Arr(items) => {
            proof {
                lemma_jsons_view(items@);
            }
            if items.len() != 2 {
                return Err(Error::bad_request("invalid claim (expected 2 elements)".to_owned()));
            }
            match (&items[0], json_uint_of(&items[1], max)) {
                (Json::Str(l), Some(m)) => {
                    let link = Link::parse(l.as_str())?;
                    Ok(Claim { link, mask: m as u32 })
                },
                _ => Err(Error::bad_request("invalid claim (expected a link and a mask)".to_owned())),
            }
        },
        _ => Err(Error::bad_request("invalid claim (expected a list)".to_owned())),
    }
}

impl Claim {
    /// The compact wire form `["<link>", <mask>]`, the mask cut to its low
    /// 16 bits.
    pub fn to_json(&self) -> (r: Json)
        ensures
            r@ == JsonV::Arr(seq![JsonV::Str(self.link@), JsonV::UInt((self.mask as u16) as u64)]),
    {
        crate::encode::arr2(Json::Str(self.link.to_text()), Json::UInt((self.mask as u16) as u64))
    }

    /// Reads the compact wire form; the mask must fit in 16 bits.
    pub fn from_json(j: &Json) -> (r: Result<Claim, Error>)
        ensures
            r matches Ok(c) ==> claim_form(j@, u16::MAX as u64) == Some((c.link@, c.mask)),
            r matches Err(e) ==> claim_form(j@, u16::MAX as u64) is None && e.kind()
                == ErrorKind::BadRequest,
    {
        claim_of(j, u16::MAX as u64)
    }
}

/// Round trip: a claim whose link is valid and whose mask fits in 16 bits
/// reads back from its compact wire form as itself.
pub proof fn claim_round_trip(link: Seq<char>, mask: u32)
    requires
        link_valid(link),
        mask <= u16::MAX,
    ensures
        claim_form(JsonV::Arr(seq![JsonV::Str(link), JsonV::UInt((mask as u16) as u64)]), u16::MAX as u64)
            == Some((link, mask)),
{
    let items = seq![JsonV::Str(link), JsonV::UInt((mask as u16) as u64)];
    assert(items[0] == JsonV::Str(link) && items[1] == JsonV::UInt((mask as u16) as u64));
    assert((mask as u16) as u64 == mask as u64);
}

proof fn lemma_header_fields_none(m: Seq<(Seq<char>, JsonV)>, i: int)
    requires
        0 <= i <= m.len(),
        header_fields(m.subrange(0, i)) is None,
    ensures
        header_fields(m) is None,
    decreases m.len() - i,
{
    if i == m.len() {
        assert(m.subrange(0, i) =~= m);
    } else {
        assert(m.subrange(0, i + 1).subrange(0, i) =~= m.subrange(0, i));
        lemma_header_fields_none(m, i + 1);
    }
}

/// The header fields of exec values.
spec fn fields_view(id: Option<TxnId>, ts: Option<u64>, claim: Option<Claim>) -> HeaderFields {
    (
        match id {
            Some(x) => Some((x.spec_timestamp(), x.spec_nonce())),
            None => None,
        },
        ts,
        match claim {
            Some(c) => Some((c.link@, c.mask)),
            None => None,
        },
    )
}

impl TxnHeader {
    /// The wire form, `{"id": ..., "timestamp": ..., "claim": [...]}`.
    pub fn to_json(&self) -> (r: Json)
        ensures
            r@ == header_json(self@),
    {
        let id = Json::Str(self.id.to_text());
        let ts = Json::UInt(self.timestamp.0);
        let claim = crate::encode::arr2(Json::Str(self.claim.link.to_text()), Json::UInt(self.claim.mask as u64));
        let mut m: Vec<(String, Json)> = Vec::new();
        let ghost e0 = m@;
        m.push((HEADER_ID.to_owned(), id));
        let ghost e1 = m@;
        m.push((HEADER_TIMESTAMP.to_owned(), ts));
        let ghost e2 = m@;
        m.push((HEADER_CLAIM.to_owned(), claim));
        proof {
            crate::encode::lemma_members_push(e0, e1[0]);
            assert(e0.push(e1[0]) =~= e1);
            assert(members_view(e0) =~= Seq::<(Seq<char>, JsonV)>::empty());
            crate::encode::lemma_members_push(e1, e2[1]);
            assert(e1.push(e2[1]) =~= e2);
            crate::encode::lemma_members_push(e2, m@[2]);
            assert(e2.push(m@[2]) =~= m@);
            assert(members_view(m@) =~= header_json(self@)->Obj_0);
        }
        Json::Obj(m)
    }

    /// Reads the wire form; fails with `BadRequest` where [`header_form`]
    /// has no value. Unknown keys are skipped; a repeated key replaces the
    /// earlier value.
    pub fn from_json(j: &Json) -> (r: Result<TxnHeader, Error>)
        ensures
            r matches Ok(h) ==> header_form(j@) == Some(h@),
            r matches Err(e) ==> header_form(j@) is None && e.kind() == ErrorKind::BadRequest,
    {
        let m = match j {
            Json::Obj(m) => m,
            _ => {
                return Err(Error::bad_request("expected a transaction header map".to_owned()));
            },
        };
        let ghost mv = members_view(m@);
        proof {
            lemma_members_view(m@);
            assert(mv.subrange(0, 0) =~= Seq::<(Seq<char>, JsonV)>::empty());
        }
        let mut id: Option<TxnId> = None;
        let mut ts: Option<u64> = None;
        let mut claim: Option<Claim> = None;
        let mut i: usize = 0;
        while i < m.len()
            invariant
                i <= m@.len(),
                mv == members_view(m@),
                j@ == JsonV::Obj(mv),
                mv.len() == m@.len(),
                forall|k: int| 0 <= k < m@.len() ==> #[trigger] mv[k] == (m@[k].0@, json_view(m@[k].1)),
                header_fields(mv.subrange(0, i as int)) == Some(fields_view(id, ts, claim)),
                id matches Some(x) ==> x.spec_trace() == Seq::new(32, |i: int| 0u8),
            decreases m@.len() - i,
        {
            let k = m[i].0.as_str();
            let p = &m[i].1;
            proof {
                assert(mv.subrange(0, i as int + 1).subrange(0, i as int) =~= mv.subrange(0, i as int));
                assert(mv.subrange(0, i as int + 1)[i as int] == mv[i as int]);
                reveal_strlit("id");
                reveal_strlit("timestamp");
                reveal_strlit("claim");
            }
            if text_eq(k, HEADER_ID) {
                match p {
                    Json::Str(s) => match TxnId::parse(s.as_str()) {
                        Ok(x) => {
                            id = Some(x);
                        },
                        Err(e) => {
                            proof {
                                assert(mv[i as int] == (k@, JsonV::Str(s@)));
                                assert(header_step(fields_view(id, ts, claim), mv[i as int].0, mv[i as int].1) is None);
                                lemma_header_fields_none(mv, i as int + 1);
                            }
                            return Err(e);
                        },
                    },
                    _ => {
                        proof {
                            lemma_header_fields_none(mv, i as int + 1);
                        }
                        return Err(Error::bad_request("invalid transaction id (expected a string)".to_owned()));
                    },
                }
            } else if text_eq(k, HEADER_TIMESTAMP) {
                match json_uint_of(p, u64::MAX) {
                    Some(t) => {
                        ts = Some(t);
                    },
                    None => {
                        proof {
                            lemma_header_fields_none(mv, i as int + 1);
                        }
                        return Err(Error::bad_request("invalid timestamp".to_owned()));
                    },
                }
            } else if text_eq(k, HEADER_CLAIM) {
                match claim_of(p, u32::MAX as u64) {
                    Ok(c) => {
                        claim = Some(c);
                    },
                    Err(e) => {
                        proof {
                            lemma_header_fields_none(mv, i as int + 1);
                        }
                        return Err(e);
                    },
                }
            }
            i = i + 1;
        }
        proof {
            assert(mv.subrange(0, m@.len() as int) =~= mv);
        }
        match (id, ts, claim) {
            (Some(x), Some(t), Some(c)) => Ok(TxnHeader { id: x, timestamp: NetworkTime(t), claim: c }),
            _ => Err(Error::bad_request("missing a field of the transaction header".to_owned())),
        }
    }
}

} // verus!
