//! Requests and responses: the encoder and the parser of whole messages.

use vstd::prelude::*;
use vstd::utf8::valid_utf8;
use crate::address::{uri_read_from, uri_text_ok, uri_wire, SipUri};
use crate::header::{header_line_ok, header_read, header_wire, number_ok, tail, Header};
use crate::token::{method_from, method_token, version_from, version_token, Method, ParseError, SipVersion};
use crate::wire::{
    crlf_index, decimal, digits_value, find_crlf, find_first, first_index, name_matches,
    name_matches_exec, parse_decimal, push_all, push_decimal, push_text, text, text_from, trim,
    trim_ws,
};

verus! {

#[derive(Debug, Clone)]
pub struct Request {
    pub method: Method,
    pub uri: SipUri,
    pub version: SipVersion,
    pub headers: Vec<Header>,
    pub body: Option<Vec<u8>>,
}

#[derive(Debug, Clone)]
pub struct Response {
    pub version: SipVersion,
    pub status_code: u16,
    pub reason_phrase: String,
    pub headers: Vec<Header>,
    pub body: Option<Vec<u8>>,
}

/// A parsed message: a request or a response.
#[derive(Debug, Clone)]
pub enum Message {
    Request(Request),
    Response(Response),
}

pub open spec fn crlf() -> Seq<u8> {
    seq![13u8, 10u8]
}

/// Each header line followed by `\r\n`, in order.
pub open spec fn headers_wire(hs: Seq<Header>) -> Seq<u8>
    decreases hs.len(),
{
    if hs.len() == 0 {
        Seq::empty()
    } else {
        headers_wire(hs.drop_last()) + header_wire(hs.last()) + crlf()
    }
}

pub open spec fn body_wire(body: Option<Vec<u8>>) -> Seq<u8> {
    match body {
        Some(b) => b@,
        None => Seq::empty(),
    }
}

/// `METHOD SP URI SP VERSION CRLF`, the header lines, a blank line, the body.
pub open spec fn request_wire(r: Request) -> Seq<u8> {
    method_token(r.method) + seq![32u8] + uri_wire(r.uri) + seq![32u8] + version_token(r.version)
        + crlf() + headers_wire(r.headers@) + crlf() + body_wire(r.body)
}

/// `VERSION SP CODE SP REASON CRLF`, the header lines, a blank line, the body.
pub open spec fn response_wire(r: Response) -> Seq<u8> {
    version_token(r.version) + seq![32u8] + decimal(r.status_code as nat) + seq![32u8] + text(
        r.reason_phrase@,
    ) + crlf() + headers_wire(r.headers@) + crlf() + body_wire(r.body)
}

fn write_headers(out: &mut Vec<u8>, hs: &Vec<Header>)
    ensures
        final(out)@ == old(out)@ + headers_wire(hs@),
{
    let mut i: usize = 0;
    while i < hs.len()
        invariant
            i <= hs@.len(),
            out@ == old(out)@ + headers_wire(hs@.subrange(0, i as int)),
        decreases hs@.len() - i,
    {
        hs[i].write_to(out);
        out.push(13u8);
        out.push(10u8);
        assert(hs@.subrange(0, i + 1).drop_last() =~= hs@.subrange(0, i as int));
        i += 1;
        assert(out@ =~= old(out)@ + headers_wire(hs@.subrange(0, i as int)));
    }
    assert(hs@.subrange(0, i as int) =~= hs@);
}

fn write_tail(out: &mut Vec<u8>, hs: &Vec<Header>, body: &Option<Vec<u8>>)
    ensures
        final(out)@ == old(out)@ + crlf() + headers_wire(hs@) + crlf() + body_wire(*body),
{
    out.push(13u8);
    out.push(10u8);
    write_headers(out, hs);
    out.push(13u8);
    out.push(10u8);
    match body {
        Some(b) => push_all(out, b.as_slice()),
        None => {},
    }
    assert(final(out)@ =~= old(out)@ + crlf() + headers_wire(hs@) + crlf() + body_wire(*body));
}

impl Request {
    /// The wire bytes of the request. Headers keep their order; a
    /// Content-Length header is written as given, never computed.
    pub fn encode(&self) -> (r: Vec<u8>)
        ensures
            r@ == request_wire(*self),
    {
        let mut out: Vec<u8> = Vec::new();
        self.method.write_to(&mut out);
        out.push(32u8);
        self.uri.write_to(&mut out);
        out.push(32u8);
        self.version.write_to(&mut out);
        write_tail(&mut out, &self.headers, &self.body);
        assert(out@ =~= request_wire(*self));
        out
    }
}

impl Response {
    /// The wire bytes of the response.
    pub fn encode(&self) -> (r: Vec<u8>)
        ensures
            r@ == response_wire(*self),
    {
        let mut out: Vec<u8> = Vec::new();
        self.version.write_to(&mut out);
        out.push(32u8);
        push_decimal(&mut out, self.status_code as u64);
        out.push(32u8);
        push_text(&mut out, &self.reason_phrase);
        write_tail(&mut out, &self.headers, &self.body);
        assert(out@ =~= response_wire(*self));
        out
    }
}

} // verus!

verus! {

/// One header line as read: the field name and the trimmed value.
pub type HeaderLine = (Seq<u8>, Seq<u8>);

/// The header lines that start at `pos`, up to and including the blank line,
/// and the position after it; or the error of the first bad line.
pub open spec fn header_lines(b: Seq<u8>, pos: int) -> Result<(Seq<HeaderLine>, int), ParseError>
    decreases b.len() - pos,
{
    let e = crlf_index(b, pos);
    if pos < 0 || e < pos || e + 2 > b.len() {
        Err(ParseError::MalformedHeaderLine)
    } else if e == pos {
        Ok((Seq::empty(), pos + 2))
    } else {
        let line = b.subrange(pos, e);
        let c = first_index(line, 58u8);
        if c < 0 {
            Err(ParseError::MalformedHeaderLine)
        } else {
            let name = line.subrange(0, c);
            let value = trim(tail(line, c + 1));
            if !header_line_ok(name, value) {
                Err(ParseError::MalformedHeaderLine)
            } else {
                match header_lines(b, e + 2) {
                    Ok((ls, end)) => Ok((seq![(name, value)] + ls, end)),
                    Err(x) => Err(x),
                }
            }
        }
    }
}

/// The declared body length: the value of the first line that is a
/// well-formed Content-Length header.
pub open spec fn content_length_in(ls: Seq<HeaderLine>) -> Option<nat>
    decreases ls.len(),
{
    if ls.len() == 0 {
        None
    } else {
        match content_length_in(ls.drop_last()) {
            Some(n) => Some(n),
            None => if name_matches(ls.last().0, text("content-length"@)) && number_ok(
                ls.last().1,
                65535,
            ) {
                Some(digits_value(ls.last().1))
            } else {
                None
            },
        }
    }
}

/// The body that follows the blank line at `end`: exactly the declared
/// number of bytes, or all that is left when no length is declared.
pub open spec fn body_bytes(b: Seq<u8>, end: int, cl: Option<nat>) -> Result<Seq<u8>, ParseError> {
    match cl {
        Some(n) => if b.len() - end < n {
            Err(ParseError::TruncatedBody)
        } else {
            Ok(b.subrange(end, end + n))
        },
        None => Ok(tail(b, end)),
    }
}

/// An empty body is no body.
pub open spec fn body_read(body: Option<Vec<u8>>, bytes: Seq<u8>) -> bool {
    if bytes.len() == 0 {
        body is None
    } else {
        body is Some && body->0@ == bytes
    }
}

pub open spec fn headers_read(hs: Seq<Header>, ls: Seq<HeaderLine>) -> bool {
    &&& hs.len() == ls.len()
    &&& forall|k: int| 0 <= k < hs.len() ==> header_read(#[trigger] hs[k], ls[k].0, ls[k].1)
}

pub open spec fn start_line(b: Seq<u8>) -> Seq<u8> {
    b.subrange(0, crlf_index(b, 0))
}

pub open spec fn space1(line: Seq<u8>) -> int {
    first_index(line, 32u8)
}

pub open spec fn after1(line: Seq<u8>) -> Seq<u8> {
    tail(line, space1(line) + 1)
}

pub open spec fn space2(line: Seq<u8>) -> int {
    first_index(after1(line), 32u8)
}

pub open spec fn token0(line: Seq<u8>) -> Seq<u8> {
    line.subrange(0, space1(line))
}

pub open spec fn token1(line: Seq<u8>) -> Seq<u8> {
    after1(line).subrange(0, space2(line))
}

pub open spec fn token2(line: Seq<u8>) -> Seq<u8> {
    tail(after1(line), space2(line) + 1)
}

/// What the start line decides: a request (`true`), a response (`false`),
/// or the error. A start line has exactly three tokens separated by single
/// spaces, for a response too, so a reason phrase holds no space.
pub open spec fn start_outcome(b: Seq<u8>) -> Result<bool, ParseError> {
    let line = start_line(b);
    if crlf_index(b, 0) < 0 || space1(line) < 0 || space2(line) < 0 {
        Err(ParseError::MalformedStartLine)
    } else if method_from(token0(line)) is Ok {
        if first_index(token2(line), 32u8) >= 0 {
            Err(ParseError::MalformedStartLine)
        } else if !uri_text_ok(token1(line)) {
            Err(ParseError::InvalidUri)
        } else if version_from(token2(line)) is Err {
            Err(ParseError::InvalidSipVersion)
        } else {
            Ok(true)
        }
    } else if version_from(token0(line)) is Ok {
        if first_index(token2(line), 32u8) >= 0 || !(number_ok(token1(line), 699) && digits_value(
            token1(line),
        ) >= 100) || !valid_utf8(token2(line)) {
            Err(ParseError::MalformedStartLine)
        } else {
            Ok(false)
        }
    } else {
        Err(ParseError::UnrecognizedStartLine)
    }
}

/// What parsing `b` gives: a request (`true`), a response (`false`), or the
/// first error met.
pub open spec fn parse_outcome(b: Seq<u8>) -> Result<bool, ParseError> {
    match start_outcome(b) {
        Err(e) => Err(e),
        Ok(k) => match header_lines(b, crlf_index(b, 0) + 2) {
            Err(e) => Err(e),
            Ok((ls, end)) => match body_bytes(b, end, content_length_in(ls)) {
                Err(e) => Err(e),
                Ok(_) => Ok(k),
            },
        },
    }
}

/// The headers and body of `b` are `hs` and `body`.
pub open spec fn rest_read(hs: Seq<Header>, body: Option<Vec<u8>>, b: Seq<u8>) -> bool {
    match header_lines(b, crlf_index(b, 0) + 2) {
        Ok((ls, end)) => headers_read(hs, ls) && match body_bytes(b, end, content_length_in(ls)) {
            Ok(bytes) => body_read(body, bytes),
            Err(_) => false,
        },
        Err(_) => false,
    }
}

pub open spec fn request_read(r: Request, b: Seq<u8>) -> bool {
    let line = start_line(b);
    &&& method_from(token0(line)) == Ok::<Method, ParseError>(r.method)
    &&& uri_read_from(r.uri, token1(line))
    &&& version_from(token2(line)) == Ok::<SipVersion, ParseError>(r.version)
    &&& rest_read(r.headers@, r.body, b)
}

pub open spec fn response_read(r: Response, b: Seq<u8>) -> bool {
    let line = start_line(b);
    &&& version_from(token0(line)) == Ok::<SipVersion, ParseError>(r.version)
    &&& r.status_code as nat == digits_value(token1(line))
    &&& text(r.reason_phrase@) == token2(line)
    &&& rest_read(r.headers@, r.body, b)
}

pub open spec fn prepend_lines(
    ls: Seq<HeaderLine>,
    r: Result<(Seq<HeaderLine>, int), ParseError>,
) -> Result<(Seq<HeaderLine>, int), ParseError> {
    match r {
        Ok((l2, e)) => Ok((ls + l2, e)),
        Err(x) => Err(x),
    }
}

pub open spec fn cl_value(cl: Option<u64>) -> Option<nat> {
    match cl {
        Some(n) => Some(n as nat),
        None => None,
    }
}

/// Reads the header lines from `pos0` on, through the blank line.
fn parse_headers(b: &[u8], pos0: usize) -> (r: Result<(Vec<Header>, usize, Option<u64>), ParseError>)
    requires
        pos0 <= b@.len(),
    ensures
        match r {
            Ok((hs, end, cl)) => match header_lines(b@, pos0 as int) {
                Ok((ls, e)) => headers_read(hs@, ls) && end == e && cl_value(cl)
                    == content_length_in(ls) && end <= b@.len(),
                Err(_) => false,
            },
            Err(x) => header_lines(b@, pos0 as int) == Err::<(Seq<HeaderLine>, int), ParseError>(x),
        },
{
    let mut pos: usize = pos0;
    let mut hs: Vec<Header> = Vec::new();
    let mut cl: Option<u64> = None;
    let ghost mut lines: Seq<HeaderLine> = Seq::empty();
    assert(lines + Seq::<HeaderLine>::empty() =~= Seq::<HeaderLine>::empty());
    loop
        invariant
            pos0 <= pos <= b@.len(),
            header_lines(b@, pos0 as int) == prepend_lines(lines, header_lines(b@, pos as int)),
            headers_read(hs@, lines),
            cl_value(cl) == content_length_in(lines),
        decreases b@.len() - pos,
    {
        let found = find_crlf(b, pos);
        if found.is_none() {
            return Err(ParseError::MalformedHeaderLine);
        }
        let e = found.unwrap();
        let blen = b.len();
        assert(e + 1 < blen);
        if e == pos {
            assert(lines + Seq::<HeaderLine>::empty() =~= lines);
            return Ok((hs, pos + 2, cl));
        }
        let line = &b[pos..e];
        let cf = find_first(line, 58u8);
        if cf.is_none() {
            return Err(ParseError::MalformedHeaderLine);
        }
        let c = cf.unwrap();
        let llen = line.len();
        assert(c < llen);
        let name = &line[0..c];
        let raw_value = &line[c + 1..llen];
        assert(raw_value@ =~= tail(line@, c + 1));
        let value = trim_ws(raw_value);
        let h = match Header::parse(name, value) {
            Ok(h) => h,
            Err(x) => {
                return Err(x);
            },
        };
        let ghost x: HeaderLine = (name@, value@);
        let ghost old_lines = lines;
        if cl.is_none() && name_matches_exec(name, "content-length".as_bytes()) {
            if let Some(n) = parse_decimal(value, 65535) {
                cl = Some(n);
            }
        }
        let ghost old_hs = hs@;
        hs.push(h);
        proof {
            lines = lines.push(x);
            assert(lines.drop_last() =~= old_lines);
            assert(old_lines + (seq![x] + header_lines(b@, e + 2)->Ok_0.0) =~= lines
                + header_lines(b@, e + 2)->Ok_0.0);
            assert forall|k: int| 0 <= k < hs@.len() implies header_read(
                #[trigger] hs@[k],
                lines[k].0,
                lines[k].1,
            ) by {
                if k < hs@.len() - 1 {
                    assert(hs@[k] == old_hs[k]);
                    assert(lines[k] == old_lines[k]);
                }
            }
        }
        pos = e + 2;
    }
}

} // verus!

verus! {

/// Reads the body that follows the blank line at `end`.
fn read_body(b: &[u8], end: usize, cl: Option<u64>) -> (r: Result<Option<Vec<u8>>, ParseError>)
    requires
        end <= b@.len(),
    ensures
        match body_bytes(b@, end as int, cl_value(cl)) {
            Ok(bytes) => r is Ok && body_read(r->Ok_0, bytes),
            Err(e) => r == Err::<Option<Vec<u8>>, ParseError>(e),
        },
{
    let blen = b.len();
    let stop: usize = match cl {
        Some(n) => {
            if ((blen - end) as u64) < n {
                return Err(ParseError::TruncatedBody);
            }
            end + n as usize
        },
        None => blen,
    };
    if stop == end {
        return Ok(None);
    }
    let mut v: Vec<u8> = Vec::new();
    push_all(&mut v, &b[end..stop]);
    assert(v@ =~= b@.subrange(end as int, stop as int));
    Ok(Some(v))
}

impl Message {
    /// Parses a whole message. The start line decides between a request and
    /// a response; the header lines follow up to a blank line; the body is
    /// the number of bytes that a Content-Length header declares, or all that
    /// is left. The first violation ends the parse with its error.
    pub fn parse(b: &[u8]) -> (r: Result<Message, ParseError>)
        ensures
            r is Ok <==> parse_outcome(b@) is Ok,
            r is Err ==> parse_outcome(b@) == Err::<bool, ParseError>(r->Err_0),
            r matches Ok(Message::Request(q)) ==> parse_outcome(b@) == Ok::<bool, ParseError>(
                true,
            ) && request_read(q, b@),
            r matches Ok(Message::Response(p)) ==> parse_outcome(b@) == Ok::<bool, ParseError>(
                false,
            ) && response_read(p, b@),
    {
        let found = find_crlf(b, 0);
        if found.is_none() {
            return Err(ParseError::MalformedStartLine);
        }
        let le = found.unwrap();
        let blen = b.len();
        assert(le + 1 < blen);
        let line = &b[0..le];
        assert(line@ =~= start_line(b@));
        let f1 = find_first(line, 32u8);
        if f1.is_none() {
            return Err(ParseError::MalformedStartLine);
        }
        let s1 = f1.unwrap();
        let llen = line.len();
        assert(s1 < llen);
        let a1 = &line[s1 + 1..llen];
        assert(a1@ =~= after1(line@));
        let f2 = find_first(a1, 32u8);
        if f2.is_none() {
            return Err(ParseError::MalformedStartLine);
        }
        let s2 = f2.unwrap();
        let alen = a1.len();
        assert(s2 < alen);
        let t0 = &line[0..s1];
        let t1 = &a1[0..s2];
        let t2 = &a1[s2 + 1..alen];
        assert(t2@ =~= token2(line@));
        match Method::from_wire(t0) {
            Ok(method) => {
                if find_first(t2, 32u8).is_some() {
                    return Err(ParseError::MalformedStartLine);
                }
                let uri = match SipUri::parse(t1) {
                    Ok(u) => u,
                    Err(e) => {
                        return Err(e);
                    },
                };
                let version = match SipVersion::from_wire(t2) {
                    Ok(v) => v,
                    Err(e) => {
                        return Err(e);
                    },
                };
                let (headers, end, cl) = match parse_headers(b, le + 2) {
                    Ok(x) => x,
                    Err(e) => {
                        return Err(e);
                    },
                };
                let body = match read_body(b, end, cl) {
                    Ok(x) => x,
                    Err(e) => {
                        return Err(e);
                    },
                };
                Ok(Message::Request(Request { method, uri, version, headers, body }))
            },
            Err(_) => {
                let version = match SipVersion::from_wire(t0) {
                    Ok(v) => v,
                    Err(_) => {
                        return Err(ParseError::UnrecognizedStartLine);
                    },
                };
                if find_first(t2, 32u8).is_some() {
                    return Err(ParseError::MalformedStartLine);
                }
                let code = match parse_decimal(t1, 699) {
                    Some(c) => c,
                    None => {
                        return Err(ParseError::MalformedStartLine);
                    },
                };
                if code < 100 {
                    return Err(ParseError::MalformedStartLine);
                }
                let reason = match text_from(t2) {
                    Some(s) => s,
                    None => {
                        return Err(ParseError::MalformedStartLine);
                    },
                };
                let (headers, end, cl) = match parse_headers(b, le + 2) {
                    Ok(x) => x,
                    Err(e) => {
                        return Err(e);
                    },
                };
                let body = match read_body(b, end, cl) {
                    Ok(x) => x,
                    Err(e) => {
                        return Err(e);
                    },
                };
                Ok(
                    Message::Response(
                        Response {
                            version,
                            status_code: code as u16,
                            reason_phrase: reason,
                            headers,
                            body,
                        },
                    ),
                )
            },
        }
    }
}

impl Request {
    /// Parses a request; a message that is a response is refused with
    /// `UnrecognizedStartLine`.
    pub fn decode(b: &[u8]) -> (r: Result<Request, ParseError>)
        ensures
            parse_outcome(b@) == Ok::<bool, ParseError>(true) <==> r is Ok,
            r is Ok ==> request_read(r->Ok_0, b@),
            parse_outcome(b@) == Ok::<bool, ParseError>(false) ==> r == Err::<Request, ParseError>(
                ParseError::UnrecognizedStartLine,
            ),
            parse_outcome(b@) is Err ==> r == Err::<Request, ParseError>(parse_outcome(b@)->Err_0),
    {
        match Message::parse(b) {
            Ok(Message::Request(q)) => Ok(q),
            Ok(Message::Response(_)) => Err(ParseError::UnrecognizedStartLine),
            Err(e) => Err(e),
        }
    }
}

impl Response {
    /// Parses a response; a message that is a request is refused with
    /// `UnrecognizedStartLine`.
    pub fn decode(b: &[u8]) -> (r: Result<Response, ParseError>)
        ensures
            parse_outcome(b@) == Ok::<bool, ParseError>(false) <==> r is Ok,
            r is Ok ==> response_read(r->Ok_0, b@),
            parse_outcome(b@) == Ok::<bool, ParseError>(true) ==> r == Err::<Response, ParseError>(
                ParseError::UnrecognizedStartLine,
            ),
            parse_outcome(b@) is Err ==> r == Err::<Response, ParseError>(parse_outcome(b@)->Err_0),
    {
        match Message::parse(b) {
            Ok(Message::Response(p)) => Ok(p),
            Ok(Message::Request(_)) => Err(ParseError::UnrecognizedStartLine),
            Err(e) => Err(e),
        }
    }
}

} // verus!
