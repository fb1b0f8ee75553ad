//! The header catalog: each known header, its canonical wire line and how its
//! value is read back, plus a raw header for every other field.

use vstd::prelude::*;
use vstd::string::StringExecFns;
use crate::address::{uri_read_from, uri_text_ok, uri_wire, host_read_from, host_text_ok, host_wire, SipHost, SipUri};
use crate::token::{method_from, method_token, version_from, version_token, Method, ParseError, SipVersion};
use crate::wire::{
    decimal, digits_value, find_first, find_last, first_index, last_index, lemma_first_index,
    lemma_last_index, parse_decimal, push_all, push_decimal, push_text, starts_with,
    starts_with_exec, text, text_from, all_digits, name_matches, name_matches_exec,
};
use vstd::utf8::valid_utf8;

verus! {

/// `Contact: *`.
#[derive(Debug, Clone)]
pub struct Contact {}

#[derive(Debug, Clone)]
pub struct MaxForwards {
    pub hops: u16,
}

/// A Via header: `VERSION/TRANSPORT HOST`, then `;branch=` and `;rport=`
/// when present, in that order. A Via line with any other parameter is kept
/// whole as a [`RawHeader`], so no parameter is lost.
#[derive(Debug, Clone)]
pub struct Via {
    pub version: SipVersion,
    pub transport: String,
    pub host: SipHost,
    pub branch: Option<String>,
    pub rport: Option<u16>,
}

#[derive(Debug, Clone)]
pub struct CallId {
    pub id: String,
}

#[derive(Debug, Clone)]
pub struct ContentLength {
    pub bytes: u16,
}

#[derive(Debug, Clone)]
pub struct CSeq {
    pub number: u32,
    pub method: Method,
}

#[derive(Debug, Clone)]
pub struct UserAgent {
    pub name: String,
}

/// A From header: `<URI>`, then `;tag=` when a tag is present. A From or To
/// line with any other parameter is kept whole as a [`RawHeader`].
#[derive(Debug, Clone)]
pub struct From {
    pub uri: SipUri,
    pub tag: Option<String>,
}

/// A To header, written and read as a From header is.
#[derive(Debug, Clone)]
pub struct To {
    pub uri: SipUri,
    pub tag: Option<String>,
}

/// A header field that is not in the catalog, or whose value does not follow
/// its field's grammar (a parameter that the typed header has no field for,
/// among others), kept as it came.
#[derive(Debug, Clone)]
pub struct RawHeader {
    pub name: String,
    pub value: String,
}

#[derive(Debug, Clone)]
pub enum Header {
    Via(Via),
    CallId(CallId),
    CSeq(CSeq),
    MaxForwards(MaxForwards),
    ContentLength(ContentLength),
    From(From),
    To(To),
    Contact(Contact),
    UserAgent(UserAgent),
    Raw(RawHeader),
}

pub open spec fn opt_text(prefix: Seq<u8>, s: Option<String>) -> Seq<u8> {
    match s {
        Some(v) => prefix + text(v@),
        None => Seq::empty(),
    }
}

pub open spec fn opt_decimal(prefix: Seq<u8>, n: Option<u16>) -> Seq<u8> {
    match n {
        Some(v) => prefix + decimal(v as nat),
        None => Seq::empty(),
    }
}

/// `;branch=`
pub open spec fn branch_param() -> Seq<u8> {
    seq![59u8, 98, 114, 97, 110, 99, 104, 61]
}

/// `;rport=`
pub open spec fn rport_param() -> Seq<u8> {
    seq![59u8, 114, 112, 111, 114, 116, 61]
}

/// `;tag=`
pub open spec fn tag_param() -> Seq<u8> {
    seq![59u8, 116, 97, 103, 61]
}

pub open spec fn via_value(v: Via) -> Seq<u8> {
    version_token(v.version) + seq![47u8] + text(v.transport@) + seq![32u8] + host_wire(v.host)
        + opt_text(branch_param(), v.branch) + opt_decimal(rport_param(), v.rport)
}

/// `<uri>`, then `;tag=...` when a tag is present.
pub open spec fn addr_value(uri: SipUri, tag: Option<String>) -> Seq<u8> {
    seq![60u8] + uri_wire(uri) + seq![62u8] + opt_text(tag_param(), tag)
}

/// The canonical field name of a header.
pub open spec fn header_name(h: Header) -> Seq<u8> {
    match h {
        Header::Via(_) => text("Via"@),
        Header::CallId(_) => text("Call-ID"@),
        Header::CSeq(_) => text("CSeq"@),
        Header::MaxForwards(_) => text("Max-Forwards"@),
        Header::ContentLength(_) => text("Content-Length"@),
        Header::From(_) => text("From"@),
        Header::To(_) => text("To"@),
        Header::Contact(_) => text("Contact"@),
        Header::UserAgent(_) => text("User-Agent"@),
        Header::Raw(r) => text(r.name@),
    }
}

/// The text of a header after `Name: `.
pub open spec fn header_value(h: Header) -> Seq<u8> {
    match h {
        Header::Via(v) => via_value(v),
        Header::CallId(c) => text(c.id@),
        Header::CSeq(c) => decimal(c.number as nat) + seq![32u8] + method_token(c.method),
        Header::MaxForwards(m) => decimal(m.hops as nat),
        Header::ContentLength(c) => decimal(c.bytes as nat),
        Header::From(f) => addr_value(f.uri, f.tag),
        Header::To(t) => addr_value(t.uri, t.tag),
        Header::Contact(_) => seq![42u8],
        Header::UserAgent(u) => text(u.name@),
        Header::Raw(r) => text(r.value@),
    }
}

/// The whole header line, without its line end: `Name: value`.
pub open spec fn header_wire(h: Header) -> Seq<u8> {
    header_name(h) + seq![58u8, 32u8] + header_value(h)
}

fn push_opt_text(out: &mut Vec<u8>, prefix: &str, s: &Option<String>)
    ensures
        final(out)@ == old(out)@ + opt_text(text(prefix@), *s),
{
    match s {
        Some(v) => {
            push_all(out, prefix.as_bytes());
            push_text(out, v);
            assert(final(out)@ =~= old(out)@ + opt_text(text(prefix@), *s));
        },
        None => {
            assert(final(out)@ =~= old(out)@ + opt_text(text(prefix@), *s));
        },
    }
}

proof fn lemma_params()
    ensures
        text(";branch="@) == branch_param(),
        text(";rport="@) == rport_param(),
        text(";tag="@) == tag_param(),
{
    reveal_strlit(";branch=");
    reveal_strlit(";rport=");
    reveal_strlit(";tag=");
    vstd::utf8::is_ascii_chars_encode_utf8(";branch="@);
    vstd::utf8::is_ascii_chars_encode_utf8(";rport="@);
    vstd::utf8::is_ascii_chars_encode_utf8(";tag="@);
    assert(text(";branch="@) =~= branch_param());
    assert(text(";rport="@) =~= rport_param());
    assert(text(";tag="@) =~= tag_param());
}

impl Header {
    /// The canonical field name.
    pub fn field_name(&self) -> (r: Vec<u8>)
        ensures
            r@ == header_name(*self),
    {
        let mut out: Vec<u8> = Vec::new();
        match self {
            Header::Via(_) => push_all(&mut out, "Via".as_bytes()),
            Header::CallId(_) => push_all(&mut out, "Call-ID".as_bytes()),
            Header::CSeq(_) => push_all(&mut out, "CSeq".as_bytes()),
            Header::MaxForwards(_) => push_all(&mut out, "Max-Forwards".as_bytes()),
            Header::ContentLength(_) => push_all(&mut out, "Content-Length".as_bytes()),
            Header::From(_) => push_all(&mut out, "From".as_bytes()),
            Header::To(_) => push_all(&mut out, "To".as_bytes()),
            Header::Contact(_) => push_all(&mut out, "Contact".as_bytes()),
            Header::UserAgent(_) => push_all(&mut out, "User-Agent".as_bytes()),
            Header::Raw(r) => push_text(&mut out, &r.name),
        }
        assert(out@ =~= header_name(*self));
        out
    }

    /// Appends the text of the header after `Name: `.
    pub fn write_value(&self, out: &mut Vec<u8>)
        ensures
            final(out)@ == old(out)@ + header_value(*self),
    {
        proof {
            lemma_params();
        }
        match self {
            Header::Via(v) => {
                v.version.write_to(out);
                out.push(47u8);
                push_text(out, &v.transport);
                out.push(32u8);
                v.host.write_to(out);
                push_opt_text(out, ";branch=", &v.branch);
                match v.rport {
                    Some(p) => {
                        push_all(out, ";rport=".as_bytes());
                        push_decimal(out, p as u64);
                    },
                    None => {},
                }
            },
            Header::CallId(c) => push_text(out, &c.id),
            Header::CSeq(c) => {
                push_decimal(out, c.number as u64);
                out.push(32u8);
                c.method.write_to(out);
            },
            Header::MaxForwards(m) => push_decimal(out, m.hops as u64),
            Header::ContentLength(c) => push_decimal(out, c.bytes as u64),
            Header::From(f) => {
                out.push(60u8);
                f.uri.write_to(out);
                out.push(62u8);
                push_opt_text(out, ";tag=", &f.tag);
            },
            Header::To(t) => {
                out.push(60u8);
                t.uri.write_to(out);
                out.push(62u8);
                push_opt_text(out, ";tag=", &t.tag);
            },
            Header::Contact(_) => out.push(42u8),
            Header::UserAgent(u) => push_text(out, &u.name),
            Header::Raw(r) => push_text(out, &r.value),
        }
        assert(final(out)@ =~= old(out)@ + header_value(*self));
    }

    /// The text of the header after `Name: `.
    pub fn render_value(&self) -> (r: Vec<u8>)
        ensures
            r@ == header_value(*self),
    {
        let mut out: Vec<u8> = Vec::new();
        self.write_value(&mut out);
        assert(out@ =~= header_value(*self));
        out
    }

    /// Appends the header line `Name: value`, without its line end.
    pub fn write_to(&self, out: &mut Vec<u8>)
        ensures
            final(out)@ == old(out)@ + header_wire(*self),
    {
        let name = self.field_name();
        push_all(out, name.as_slice());
        out.push(58u8);
        out.push(32u8);
        self.write_value(out);
        assert(final(out)@ =~= old(out)@ + header_wire(*self));
    }

    /// The header line `Name: value`, without its line end.
    pub fn render(&self) -> (r: Vec<u8>)
        ensures
            r@ == header_wire(*self),
    {
        let mut out: Vec<u8> = Vec::new();
        self.write_to(&mut out);
        assert(out@ =~= header_wire(*self));
        out
    }
}

} // verus!

verus! {

/// A number of at most `max` written in decimal.
pub open spec fn number_ok(b: Seq<u8>, max: nat) -> bool {
    b.len() > 0 && all_digits(b) && digits_value(b) <= max
}

pub open spec fn tail(b: Seq<u8>, i: int) -> Seq<u8> {
    b.subrange(i, b.len() as int)
}

/// What follows the host of a Via value: nothing, `;branch=B`, `;rport=N`,
/// or `;branch=B;rport=N`.
pub open spec fn via_params_ok(p: Seq<u8>) -> bool {
    if p.len() == 0 {
        true
    } else if starts_with(p, branch_param()) {
        let q = tail(p, 8);
        let j = first_index(q, 59u8);
        if j < 0 {
            valid_utf8(q)
        } else {
            valid_utf8(q.subrange(0, j)) && rport_ok(tail(q, j))
        }
    } else {
        rport_ok(p)
    }
}

pub open spec fn rport_ok(p: Seq<u8>) -> bool {
    starts_with(p, rport_param()) && number_ok(tail(p, 7), 65535)
}

/// The branch and rport that the parameters `p` give.
pub open spec fn via_params_read(branch: Option<String>, rport: Option<u16>, p: Seq<u8>) -> bool {
    if p.len() == 0 {
        branch is None && rport is None
    } else if starts_with(p, branch_param()) {
        let q = tail(p, 8);
        let j = first_index(q, 59u8);
        &&& branch is Some
        &&& if j < 0 {
            text(branch->0@) == q && rport is None
        } else {
            text(branch->0@) == q.subrange(0, j) && rport is Some && rport->0 as nat
                == digits_value(tail(tail(q, j), 7))
        }
    } else {
        branch is None && rport is Some && rport->0 as nat == digits_value(tail(p, 7))
    }
}

/// The parts of a Via value: `VERSION/TRANSPORT HOST[PARAMS]`.
pub open spec fn via_space(b: Seq<u8>) -> int {
    first_index(b, 32u8)
}

pub open spec fn via_proto(b: Seq<u8>) -> Seq<u8> {
    b.subrange(0, via_space(b))
}

pub open spec fn via_slash(b: Seq<u8>) -> int {
    last_index(via_proto(b), 47u8)
}

pub open spec fn via_after(b: Seq<u8>) -> Seq<u8> {
    tail(b, via_space(b) + 1)
}

pub open spec fn via_semi(b: Seq<u8>) -> int {
    first_index(via_after(b), 59u8)
}

pub open spec fn via_host_text(b: Seq<u8>) -> Seq<u8> {
    if via_semi(b) < 0 {
        via_after(b)
    } else {
        via_after(b).subrange(0, via_semi(b))
    }
}

pub open spec fn via_params(b: Seq<u8>) -> Seq<u8> {
    if via_semi(b) < 0 {
        Seq::empty()
    } else {
        tail(via_after(b), via_semi(b))
    }
}

pub open spec fn via_ok(b: Seq<u8>) -> bool {
    &&& via_space(b) >= 0
    &&& via_slash(b) >= 0
    &&& version_from(via_proto(b).subrange(0, via_slash(b))) is Ok
    &&& valid_utf8(tail(via_proto(b), via_slash(b) + 1))
    &&& host_text_ok(via_host_text(b))
    &&& via_params_ok(via_params(b))
}

pub open spec fn via_read(v: Via, b: Seq<u8>) -> bool {
    &&& version_from(via_proto(b).subrange(0, via_slash(b))) == Ok::<SipVersion, ParseError>(
        v.version,
    )
    &&& text(v.transport@) == tail(via_proto(b), via_slash(b) + 1)
    &&& host_read_from(v.host, via_host_text(b))
    &&& via_params_read(v.branch, v.rport, via_params(b))
}

/// The parts of a From or To value: `<URI>` and an optional `;tag=T`.
pub open spec fn addr_close(b: Seq<u8>) -> int {
    first_index(b, 62u8)
}

pub open spec fn addr_after(b: Seq<u8>) -> Seq<u8> {
    tail(b, addr_close(b) + 1)
}

pub open spec fn addr_ok(b: Seq<u8>) -> bool {
    &&& b.len() > 0 && b[0] == 60u8
    &&& addr_close(b) >= 1
    &&& uri_text_ok(b.subrange(1, addr_close(b)))
    &&& (addr_after(b).len() == 0 || (starts_with(addr_after(b), tag_param()) && valid_utf8(
        tail(addr_after(b), 5),
    ) && first_index(tail(addr_after(b), 5), 59u8) < 0))
}

pub open spec fn addr_read(uri: SipUri, tag: Option<String>, b: Seq<u8>) -> bool {
    &&& uri_read_from(uri, b.subrange(1, addr_close(b)))
    &&& if addr_after(b).len() == 0 {
        tag is None
    } else {
        tag is Some && text(tag->0@) == tail(addr_after(b), 5)
    }
}

pub open spec fn cseq_ok(b: Seq<u8>) -> bool {
    let sp = first_index(b, 32u8);
    sp >= 0 && number_ok(b.subrange(0, sp), 0xffff_ffff) && method_from(tail(b, sp + 1)) is Ok
}

pub open spec fn cseq_read(c: CSeq, b: Seq<u8>) -> bool {
    let sp = first_index(b, 32u8);
    c.number as nat == digits_value(b.subrange(0, sp)) && method_from(tail(b, sp + 1))
        == Ok::<Method, ParseError>(c.method)
}

fn parse_via_params(p: &[u8]) -> (r: Option<(Option<String>, Option<u16>)>)
    ensures
        r is Some <==> via_params_ok(p@),
        r is Some ==> via_params_read((r->0).0, (r->0).1, p@),
{
    if p.len() == 0 {
        return Some((None, None));
    }
    proof {
        lemma_params();
    }
    if starts_with_exec(p, ";branch=".as_bytes()) {
        let q = &p[8..p.len()];
        assert(q@ =~= tail(p@, 8));
        match find_first(q, 59u8) {
            None => match text_from(q) {
                Some(b) => Some((Some(b), None)),
                None => None,
            },
            Some(j) => {
                proof {
                    lemma_first_index(q@, 59u8);
                }
                let bq = &q[0..j];
                let rest = &q[j..q.len()];
                assert(rest@ =~= tail(q@, j as int));
                match text_from(bq) {
                    Some(b) => match parse_rport(rest) {
                        Some(n) => Some((Some(b), Some(n))),
                        None => None,
                    },
                    None => None,
                }
            },
        }
    } else {
        match parse_rport(p) {
            Some(n) => Some((None, Some(n))),
            None => None,
        }
    }
}

fn parse_rport(p: &[u8]) -> (r: Option<u16>)
    ensures
        r is Some <==> rport_ok(p@),
        r is Some ==> r->0 as nat == digits_value(tail(p@, 7)),
{
    proof {
        lemma_params();
    }
    if !starts_with_exec(p, ";rport=".as_bytes()) {
        return None;
    }
    let d = &p[7..p.len()];
    assert(d@ =~= tail(p@, 7));
    match parse_decimal(d, 65535) {
        Some(n) => Some(n as u16),
        None => None,
    }
}

impl Via {
    /// Reads a Via value.
    pub fn parse_value(b: &[u8]) -> (r: Option<Via>)
        ensures
            r is Some <==> via_ok(b@),
            r is Some ==> via_read(r->0, b@),
    {
        let found = find_first(b, 32u8);
        if found.is_none() {
            return None;
        }
        let sp = found.unwrap();
        let blen = b.len();
        assert(sp < blen);
        proof {
            lemma_first_index(b@, 32u8);
        }
        let proto = &b[0..sp];
        assert(proto@ =~= via_proto(b@));
        let after = &b[sp + 1..b.len()];
        assert(after@ =~= via_after(b@));
        let sl = match find_last(proto, 47u8) {
            Some(i) => i,
            None => {
                return None;
            },
        };
        proof {
            lemma_last_index(proto@, 47u8);
        }
        let vtext = &proto[0..sl];
        let ttext = &proto[sl + 1..proto.len()];
        assert(ttext@ =~= tail(via_proto(b@), via_slash(b@) + 1));
        let version = match SipVersion::from_wire(vtext) {
            Ok(v) => v,
            Err(_) => {
                return None;
            },
        };
        let transport = match text_from(ttext) {
            Some(t) => t,
            None => {
                return None;
            },
        };
        proof {
            lemma_first_index(after@, 59u8);
        }
        let (htext, ptext) = match find_first(after, 59u8) {
            Some(j) => (&after[0..j], &after[j..after.len()]),
            None => (after, &after[after.len()..after.len()]),
        };
        assert(htext@ =~= via_host_text(b@));
        assert(ptext@ =~= via_params(b@));
        let host = match SipHost::parse(htext) {
            Ok(h) => h,
            Err(_) => {
                return None;
            },
        };
        match parse_via_params(ptext) {
            Some((branch, rport)) => Some(Via { version, transport, host, branch, rport }),
            None => None,
        }
    }
}

/// Reads a From or To value.
fn parse_addr(b: &[u8]) -> (r: Option<(SipUri, Option<String>)>)
    ensures
        r is Some <==> addr_ok(b@),
        r is Some ==> addr_read((r->0).0, (r->0).1, b@),
{
    if b.len() == 0 || b[0] != 60u8 {
        return None;
    }
    let k = match find_first(b, 62u8) {
        Some(k) => k,
        None => {
            return None;
        },
    };
    proof {
        lemma_first_index(b@, 62u8);
        lemma_params();
    }
    if k < 1 {
        return None;
    }
    let utext = &b[1..k];
    let after = &b[k + 1..b.len()];
    assert(after@ =~= addr_after(b@));
    let uri = match SipUri::parse(utext) {
        Ok(u) => u,
        Err(_) => {
            return None;
        },
    };
    if after.len() == 0 {
        return Some((uri, None));
    }
    if !starts_with_exec(after, ";tag=".as_bytes()) {
        return None;
    }
    let t = &after[5..after.len()];
    assert(t@ =~= tail(addr_after(b@), 5));
    if find_first(t, 59u8).is_some() {
        return None;
    }
    match text_from(t) {
        Some(tag) => Some((uri, Some(tag))),
        None => None,
    }
}

fn parse_cseq(b: &[u8]) -> (r: Option<CSeq>)
    ensures
        r is Some <==> cseq_ok(b@),
        r is Some ==> cseq_read(r->0, b@),
{
    let found = find_first(b, 32u8);
    if found.is_none() {
        return None;
    }
    let sp = found.unwrap();
    let blen = b.len();
    assert(sp < blen);
    proof {
        lemma_first_index(b@, 32u8);
    }
    let n = match parse_decimal(&b[0..sp], 0xffff_ffff) {
        Some(n) => n,
        None => {
            return None;
        },
    };
    let mtext = &b[sp + 1..b.len()];
    assert(mtext@ =~= tail(b@, sp + 1));
    match Method::from_wire(mtext) {
        Ok(m) => Some(CSeq { number: n as u32, method: m }),
        Err(_) => None,
    }
}

} // verus!

verus! {

/// The header that a known field name and a value that follows its grammar
/// give; `None` for every other line.
pub open spec fn known_header_read(h: Header, name: Seq<u8>, value: Seq<u8>) -> Option<bool> {
    if name_matches(name, text("via"@)) && via_ok(value) {
        Some(h is Via && via_read(h->Via_0, value))
    } else if name_matches(name, text("call-id"@)) && valid_utf8(value) {
        Some(h is CallId && text(h->CallId_0.id@) == value)
    } else if name_matches(name, text("cseq"@)) && cseq_ok(value) {
        Some(h is CSeq && cseq_read(h->CSeq_0, value))
    } else if name_matches(name, text("max-forwards"@)) && number_ok(value, 65535) {
        Some(h is MaxForwards && h->MaxForwards_0.hops as nat == digits_value(value))
    } else if name_matches(name, text("content-length"@)) && number_ok(value, 65535) {
        Some(h is ContentLength && h->ContentLength_0.bytes as nat == digits_value(value))
    } else if name_matches(name, text("from"@)) && addr_ok(value) {
        Some(h is From && addr_read(h->From_0.uri, h->From_0.tag, value))
    } else if name_matches(name, text("to"@)) && addr_ok(value) {
        Some(h is To && addr_read(h->To_0.uri, h->To_0.tag, value))
    } else if name_matches(name, text("contact"@)) && value == seq![42u8] {
        Some(h is Contact)
    } else if name_matches(name, text("user-agent"@)) && valid_utf8(value) {
        Some(h is UserAgent && text(h->UserAgent_0.name@) == value)
    } else {
        None
    }
}

/// Whether a header line with this name and value can be read.
pub open spec fn header_line_ok(name: Seq<u8>, value: Seq<u8>) -> bool {
    known_header_read(Header::Contact(Contact {}), name, value) is Some || (valid_utf8(name)
        && valid_utf8(value))
}

/// `h` is what the header line with this name and (trimmed) value holds: a
/// known header where the name is known (in any ASCII case) and the value
/// follows its grammar, else a raw header with the name and value as written.
pub open spec fn header_read(h: Header, name: Seq<u8>, value: Seq<u8>) -> bool {
    match known_header_read(h, name, value) {
        Some(ok) => ok,
        None => h is Raw && text(h->Raw_0.name@) == name && text(h->Raw_0.value@) == value,
    }
}

impl Header {
    /// Reads one header from its field name and its value, with surrounding
    /// white space already removed.
    pub fn parse(name: &[u8], value: &[u8]) -> (r: Result<Header, ParseError>)
        ensures
            r is Ok <==> header_line_ok(name@, value@),
            r is Ok ==> header_read(r->Ok_0, name@, value@),
            r is Err ==> r == Err::<Header, ParseError>(ParseError::MalformedHeaderLine),
    {
        if name_matches_exec(name, "via".as_bytes()) {
            if let Some(v) = Via::parse_value(value) {
                return Ok(Header::Via(v));
            }
        }
        if name_matches_exec(name, "call-id".as_bytes()) {
            if let Some(id) = text_from(value) {
                return Ok(Header::CallId(CallId { id }));
            }
        }
        if name_matches_exec(name, "cseq".as_bytes()) {
            if let Some(c) = parse_cseq(value) {
                return Ok(Header::CSeq(c));
            }
        }
        if name_matches_exec(name, "max-forwards".as_bytes()) {
            if let Some(n) = parse_decimal(value, 65535) {
                return Ok(Header::MaxForwards(MaxForwards { hops: n as u16 }));
            }
        }
        if name_matches_exec(name, "content-length".as_bytes()) {
            if let Some(n) = parse_decimal(value, 65535) {
                return Ok(Header::ContentLength(ContentLength { bytes: n as u16 }));
            }
        }
        if name_matches_exec(name, "from".as_bytes()) {
            if let Some((uri, tag)) = parse_addr(value) {
                return Ok(Header::From(From { uri, tag }));
            }
        }
        if name_matches_exec(name, "to".as_bytes()) {
            if let Some((uri, tag)) = parse_addr(value) {
                return Ok(Header::To(To { uri, tag }));
            }
        }
        if name_matches_exec(name, "contact".as_bytes()) {
            if value.len() == 1 && value[0] == 42u8 {
                assert(value@ =~= seq![42u8]);
                return Ok(Header::Contact(Contact {}));
            }
        }
        if name_matches_exec(name, "user-agent".as_bytes()) {
            if let Some(n) = text_from(value) {
                return Ok(Header::UserAgent(UserAgent { name: n }));
            }
        }
        assert(known_header_read(Header::Contact(Contact {}), name@, value@) is None) by {
            if value@ == seq![42u8] {
                assert(value@.len() == 1 && value@[0] == 42u8);
            }
        }
        match (text_from(name), text_from(value)) {
            (Some(n), Some(v)) => Ok(Header::Raw(RawHeader { name: n, value: v })),
            _ => Err(ParseError::MalformedHeaderLine),
        }
    }
}

} // verus!

verus! {

/// A character of a UUID in its lower-case hyphenated text form.
pub open spec fn is_uuid_char(c: char) -> bool {
    ('0' <= c <= '9') || ('a' <= c <= 'f') || c == '-'
}

/// The lower-case hyphenated text of the version 4 UUID made from 16 random
/// bytes.
pub uninterp spec fn uuid_text_of(bytes: Seq<u8>) -> Seq<char>;

/// Relies on `uuid::Builder::from_random_bytes`, which sets the version and
/// variant bits of the given bytes, and on the `Display` impl of `Uuid`, which
/// writes it in lower-case hyphenated form: 36 characters, each a hex digit
/// or a hyphen, with hyphens at 8, 13, 18 and 23 and the version digit `4`
/// at 14.
#[verifier::external_body]
fn uuid_text(bytes: [u8; 16]) -> (r: String)
    ensures
        r@ == uuid_text_of(bytes@),
        r@.len() == 36,
        forall|i: int| 0 <= i < 36 ==> is_uuid_char(#[trigger] r@[i]),
        r@[8] == '-' && r@[13] == '-' && r@[18] == '-' && r@[23] == '-',
        r@[14] == '4',
{
    uuid::Builder::from_random_bytes(bytes).into_uuid().to_string()
}

impl CallId {
    /// A Call-ID of the form `token@address`.
    pub fn with_token(token: &str, host: &SipHost) -> (r: CallId)
        ensures
            r.id@ == token@ + "@"@ + host.address@,
    {
        let id = String::from_str(token).concat("@").concat(host.address.as_str());
        CallId { id }
    }

    /// A Call-ID made of the version 4 UUID that 16 random bytes give,
    /// followed by `@` and the host's address.
    pub fn random_with_host(host: &SipHost, bytes: [u8; 16]) -> (r: CallId)
        ensures
            r.id@ == uuid_text_of(bytes@) + "@"@ + host.address@,
            r.id@.len() == 37 + host.address@.len(),
            forall|i: int| 0 <= i < 36 ==> is_uuid_char(#[trigger] r.id@[i]),
            r.id@.subrange(36, 37) == "@"@,
            r.id@.subrange(37, r.id@.len() as int) == host.address@,
    {
        let token = uuid_text(bytes);
        proof {
            reveal_strlit("@");
        }
        let r = CallId::with_token(token.as_str(), host);
        assert(r.id@.subrange(36, 37) =~= "@"@);
        assert(r.id@.subrange(37, r.id@.len() as int) =~= host.address@);
        r
    }

    /// A Call-ID that is the version 4 UUID that 16 random bytes give.
    pub fn random(bytes: [u8; 16]) -> (r: CallId)
        ensures
            r.id@ == uuid_text_of(bytes@),
            r.id@.len() == 36,
            forall|i: int| 0 <= i < 36 ==> is_uuid_char(#[trigger] r.id@[i]),
    {
        CallId { id: uuid_text(bytes) }
    }
}

} // verus!
