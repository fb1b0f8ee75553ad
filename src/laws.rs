//! Laws that relate the codec's functions to each other.

use vstd::prelude::*;
use vstd::utf8::*;
use crate::token::{method_from, method_token, version_from, version_token, Method, ParseError, SipVersion};
use crate::address::{
    host_address_of, host_wire, port_colon, sip_scheme, uri_at, uri_host_text, uri_read_from,
    uri_rest, uri_text_ok, uri_wire, SipHost, SipUri,
};
use crate::header::{
    cseq_ok, cseq_read, header_line_ok, header_name, header_read, header_value, header_wire,
    number_ok, tail, CSeq, CallId, Contact, ContentLength, Header, MaxForwards, UserAgent, From,
    To, Via, via_ok, via_read, via_value, via_space, via_proto, via_slash, via_after, via_semi,
    via_host_text, via_params, via_params_ok, via_params_read, branch_param, rport_param,
    opt_text, opt_decimal, rport_ok, addr_ok, addr_read, addr_value, addr_close, addr_after,
    tag_param,
};
use crate::message::{
    after1, body_bytes, body_read, body_wire, content_length_in, crlf, header_lines, headers_read,
    headers_wire, parse_outcome, request_read, request_wire, space1, space2, start_line,
    start_outcome, token0, token1, token2, HeaderLine, Request,
};
use crate::wire::{
    decimal, last_index, lemma_decimal_digits, lemma_last_index_concat, lemma_last_index_none,
    text, lemma_first_index_at, crlf_index, is_ws, lower, name_matches, trim_back, trim_front,
    first_index, lemma_crlf_index, lemma_crlf_index_prefix, lemma_first_index_concat,
    lemma_first_index_none, trim,
};

verus! {

proof fn lemma_ascii_token(s: Seq<char>)
    requires
        is_ascii_chars(s),
    ensures
        encode_utf8(s).len() == s.len(),
        forall|i: int| 0 <= i < s.len() ==> encode_utf8(s)[i] == s[i] as u8,
{
    is_ascii_chars_encode_utf8(s);
}

/// The bytes of every method and version token, as the wire carries them.
proof fn lemma_token_bytes()
    ensures
        method_token(Method::Register) == seq![82u8, 69, 71, 73, 83, 84, 69, 82],
        method_token(Method::Invite) == seq![73u8, 78, 86, 73, 84, 69],
        method_token(Method::Ack) == seq![65u8, 67, 75],
        method_token(Method::Cancel) == seq![67u8, 65, 78, 67, 69, 76],
        method_token(Method::Buy) == seq![66u8, 85, 89],
        method_token(Method::Options) == seq![79u8, 80, 84, 73, 79, 78, 83],
        version_token(SipVersion::Sip) == seq![83u8, 73, 80],
        version_token(SipVersion::Sip2) == seq![83u8, 73, 80, 47, 50, 46, 48],
{
    reveal_strlit("REGISTER");
    reveal_strlit("INVITE");
    reveal_strlit("ACK");
    reveal_strlit("CANCEL");
    reveal_strlit("BUY");
    reveal_strlit("OPTIONS");
    reveal_strlit("SIP");
    reveal_strlit("SIP/2.0");
    lemma_ascii_token("REGISTER"@);
    lemma_ascii_token("INVITE"@);
    lemma_ascii_token("ACK"@);
    lemma_ascii_token("CANCEL"@);
    lemma_ascii_token("BUY"@);
    lemma_ascii_token("OPTIONS"@);
    lemma_ascii_token("SIP"@);
    lemma_ascii_token("SIP/2.0"@);
    assert(method_token(Method::Register) =~= seq![82u8, 69, 71, 73, 83, 84, 69, 82]);
    assert(method_token(Method::Invite) =~= seq![73u8, 78, 86, 73, 84, 69]);
    assert(method_token(Method::Ack) =~= seq![65u8, 67, 75]);
    assert(method_token(Method::Cancel) =~= seq![67u8, 65, 78, 67, 69, 76]);
    assert(method_token(Method::Buy) =~= seq![66u8, 85, 89]);
    assert(method_token(Method::Options) =~= seq![79u8, 80, 84, 73, 79, 78, 83]);
    assert(version_token(SipVersion::Sip) =~= seq![83u8, 73, 80]);
    assert(version_token(SipVersion::Sip2) =~= seq![83u8, 73, 80, 47, 50, 46, 48]);
}

/// No two tokens of the two vocabularies are the same byte string.
pub proof fn lemma_tokens_distinct()
    ensures
        forall|a: Method, b: Method| method_token(a) == method_token(b) ==> a == b,
        forall|a: SipVersion, b: SipVersion| version_token(a) == version_token(b) ==> a == b,
        forall|a: Method, b: SipVersion| method_token(a) != version_token(b),
{
    lemma_token_bytes();
    assert forall|a: Method, b: Method| method_token(a) == method_token(b) implies a == b by {
        if a != b {
            let (x, y) = (method_token(a), method_token(b));
            assert(x.len() != y.len() || x[0] != y[0]);
        }
    }
    assert forall|a: SipVersion, b: SipVersion| version_token(a) == version_token(b) implies a == b by {
        if a != b {
            assert(version_token(a).len() != version_token(b).len());
        }
    }
    assert forall|a: Method, b: SipVersion| method_token(a) != version_token(b) by {
        let (x, y) = (method_token(a), version_token(b));
        assert(x.len() != y.len() || x[0] != y[0] || x[1] != y[1]);
    }
}

/// Reading the token of a method gives the method back; likewise for versions.
pub proof fn lemma_token_round_trip(m: Method, v: SipVersion)
    ensures
        method_from(method_token(m)) == Ok::<Method, ParseError>(m),
        version_from(version_token(v)) == Ok::<SipVersion, ParseError>(v),
{
    lemma_tokens_distinct();
}

/// A byte string that is no method token is refused as a method, and one that
/// is no version token is refused as a version.
pub proof fn lemma_unknown_tokens_refused(b: Seq<u8>)
    ensures
        (forall|m: Method| b != method_token(m)) ==> method_from(b) == Err::<Method, ParseError>(
            ParseError::InvalidMethod,
        ),
        (forall|v: SipVersion| b != version_token(v)) ==> version_from(b) == Err::<
            SipVersion,
            ParseError,
        >(ParseError::InvalidSipVersion),
{
    if forall|m: Method| b != method_token(m) {
        assert(b != method_token(Method::Register));
        assert(b != method_token(Method::Invite));
        assert(b != method_token(Method::Ack));
        assert(b != method_token(Method::Cancel));
        assert(b != method_token(Method::Buy));
        assert(b != method_token(Method::Options));
    }
    if forall|v: SipVersion| b != version_token(v) {
        assert(b != version_token(SipVersion::Sip));
        assert(b != version_token(SipVersion::Sip2));
    }
}

} // verus!

verus! {

/// A header whose line, read alone, gives the header back: the line holds no
/// `\r\n`, its name no `:`, its value no white space at either end, and
/// reading its name and value yields this header.
pub open spec fn header_reads_back(h: Header) -> bool {
    let line = header_wire(h);
    &&& crlf_index(line + crlf(), 0) == line.len()
    &&& first_index(line, 58u8) == header_name(h).len()
    &&& trim(tail(line, header_name(h).len() as int + 1)) == header_value(h)
    &&& header_line_ok(header_name(h), header_value(h))
    &&& header_read(h, header_name(h), header_value(h))
}

pub open spec fn header_line_of(h: Header) -> HeaderLine {
    (header_name(h), header_value(h))
}

/// The name and value of each header, as the parser reads the lines.
pub open spec fn lines_of(hs: Seq<Header>) -> Seq<HeaderLine> {
    hs.map_values(|h: Header| header_line_of(h))
}

/// A URI whose text holds no space and gives the URI back.
pub open spec fn uri_reads_back(u: SipUri) -> bool {
    &&& first_index(uri_wire(u), 32u8) < 0
    &&& uri_text_ok(uri_wire(u))
    &&& uri_read_from(u, uri_wire(u))
}

/// The start line of a request, without its line end.
pub open spec fn request_line(r: Request) -> Seq<u8> {
    method_token(r.method) + seq![32u8] + uri_wire(r.uri) + seq![32u8] + version_token(r.version)
}

/// The length that the first Content-Length header declares, if any.
pub open spec fn declared_length(r: Request) -> Option<nat> {
    content_length_in(lines_of(r.headers@))
}

proof fn lemma_tokens_without_space(m: Method, v: SipVersion)
    ensures
        first_index(method_token(m), 32u8) < 0,
        first_index(version_token(v), 32u8) < 0,
{
    lemma_token_bytes();
    let (a, b) = (method_token(m), version_token(v));
    assert forall|j: int| 0 <= j < a.len() implies a[j] != 32u8 by {
        match m {
            Method::Register => {},
            Method::Invite => {},
            Method::Ack => {},
            Method::Cancel => {},
            Method::Buy => {},
            Method::Options => {},
        }
    }
    assert forall|j: int| 0 <= j < b.len() implies b[j] != 32u8 by {
        match v {
            SipVersion::Sip => {},
            SipVersion::Sip2 => {},
        }
    }
    lemma_first_index_none(a, 32u8);
    lemma_first_index_none(b, 32u8);
}

proof fn lemma_headers_wire_front(hs: Seq<Header>)
    requires
        hs.len() > 0,
    ensures
        headers_wire(hs) == header_wire(hs[0]) + crlf() + headers_wire(hs.drop_first()),
    decreases hs.len(),
{
    if hs.len() == 1 {
        assert(hs.drop_last() =~= Seq::<Header>::empty());
        assert(hs.drop_first() =~= Seq::<Header>::empty());
        assert(headers_wire(hs) =~= header_wire(hs[0]) + crlf() + headers_wire(hs.drop_first()));
    } else {
        lemma_headers_wire_front(hs.drop_last());
        assert(hs.drop_last().drop_first() =~= hs.drop_first().drop_last());
        assert(hs.drop_first().last() == hs.last());
        assert(hs.drop_last()[0] == hs[0]);
        assert(headers_wire(hs) =~= header_wire(hs[0]) + crlf() + headers_wire(hs.drop_first()));
    }
}

/// The header block of an encoded message reads back as the lines of its
/// headers, and ends after the blank line.
#[verifier::rlimit(30)]
proof fn lemma_header_block(b: Seq<u8>, pos: int, hs: Seq<Header>)
    requires
        0 <= pos,
        pos + headers_wire(hs).len() + 2 <= b.len(),
        b.subrange(pos, pos + headers_wire(hs).len() + 2) == headers_wire(hs) + crlf(),
        forall|k: int| 0 <= k < hs.len() ==> header_reads_back(#[trigger] hs[k]),
    ensures
        header_lines(b, pos) == Ok::<(Seq<HeaderLine>, int), ParseError>(
            (lines_of(hs), pos + headers_wire(hs).len() + 2),
        ),
    decreases hs.len(),
{
    let hw = headers_wire(hs);
    if hs.len() == 0 {
        assert(b[pos] == (hw + crlf())[0]);
        assert(b[pos + 1] == (hw + crlf())[1]);
        assert(lines_of(hs) =~= Seq::<HeaderLine>::empty());
    } else {
        let h = hs[0];
        let rest = hs.drop_first();
        lemma_headers_wire_front(hs);
        let line = header_wire(h);
        let t = line + crlf();
        assert(hw + crlf() =~= t + (headers_wire(rest) + crlf()));
        assert(b.subrange(pos, pos + t.len()) =~= t) by {
            assert forall|i: int| 0 <= i < t.len() implies b.subrange(pos, pos + t.len())[i]
                == t[i] by {
                assert(b.subrange(pos, pos + hw.len() + 2)[i] == (hw + crlf())[i]);
            }
        }
        lemma_crlf_index_prefix(b, pos, t);
        let e = pos + line.len();
        assert(crlf_index(b, pos) == e);
        assert(b.subrange(pos, e) =~= line) by {
            assert forall|i: int| 0 <= i < line.len() implies b.subrange(pos, e)[i] == line[i] by {
                assert(b.subrange(pos, pos + t.len())[i] == t[i]);
            }
        }
        assert(header_reads_back(hs[0]));
        assert(line.subrange(0, header_name(h).len() as int) =~= header_name(h));
        let rw = headers_wire(rest);
        assert(b.subrange(e + 2, e + 2 + rw.len() + 2) =~= rw + crlf()) by {
            assert forall|i: int| 0 <= i < rw.len() + 2 implies b.subrange(
                e + 2,
                e + 2 + rw.len() + 2,
            )[i] == (rw + crlf())[i] by {
                assert(b.subrange(pos, pos + hw.len() + 2)[t.len() + i] == (hw + crlf())[t.len()
                    + i]);
            }
        }
        assert forall|k: int| 0 <= k < rest.len() implies header_reads_back(#[trigger] rest[k]) by {
            assert(rest[k] == hs[k + 1]);
        }
        lemma_header_block(b, e + 2, rest);
        assert(lines_of(hs) =~= seq![header_line_of(h)] + lines_of(rest));
    }
}

proof fn lemma_start_line_split(r: Request)
    requires
        first_index(uri_wire(r.uri), 32u8) < 0,
        crlf_index(request_line(r) + crlf(), 0) == request_line(r).len(),
    ensures
        crlf_index(request_wire(r), 0) == request_line(r).len(),
        start_line(request_wire(r)) == request_line(r),
        space1(request_line(r)) >= 0,
        space2(request_line(r)) >= 0,
        first_index(token2(request_line(r)), 32u8) < 0,
        token0(request_line(r)) == method_token(r.method),
        token1(request_line(r)) == uri_wire(r.uri),
        token2(request_line(r)) == version_token(r.version),
{
    let w = request_wire(r);
    let sl = request_line(r);
    let (m, u, v) = (method_token(r.method), uri_wire(r.uri), version_token(r.version));
    let hw = headers_wire(r.headers@);
    let body = body_wire(r.body);
    assert(w =~= (sl + crlf()) + (hw + crlf() + body));
    lemma_crlf_index(sl + crlf(), 0);
    assert(w.subrange(0, (sl + crlf()).len() as int) =~= sl + crlf());
    lemma_crlf_index_prefix(w, 0, sl + crlf());
    assert(start_line(w) =~= sl);
    lemma_tokens_without_space(r.method, r.version);
    lemma_first_index_concat(m, seq![32u8] + u + seq![32u8] + v, 32u8);
    assert(sl =~= m + (seq![32u8] + u + seq![32u8] + v));
    assert(first_index(seq![32u8] + u + seq![32u8] + v, 32u8) == 0);
    assert(space1(sl) == m.len());
    assert(after1(sl) =~= u + (seq![32u8] + v));
    lemma_first_index_concat(u, seq![32u8] + v, 32u8);
    assert(first_index(seq![32u8] + v, 32u8) == 0);
    assert(space2(sl) == u.len());
    assert(token0(sl) =~= m);
    assert(token1(sl) =~= u);
    assert(token2(sl) =~= v);
}

proof fn lemma_request_start_line(r: Request)
    requires
        uri_reads_back(r.uri),
        crlf_index(request_line(r) + crlf(), 0) == request_line(r).len(),
    ensures
        crlf_index(request_wire(r), 0) == request_line(r).len(),
        start_line(request_wire(r)) == request_line(r),
        token0(request_line(r)) == method_token(r.method),
        token1(request_line(r)) == uri_wire(r.uri),
        token2(request_line(r)) == version_token(r.version),
        start_outcome(request_wire(r)) == Ok::<bool, ParseError>(true),
        method_from(token0(request_line(r))) == Ok::<Method, ParseError>(r.method),
        version_from(token2(request_line(r))) == Ok::<SipVersion, ParseError>(r.version),
        uri_read_from(r.uri, token1(request_line(r))),
{
    lemma_start_line_split(r);
    lemma_token_round_trip(r.method, r.version);
}

/// Encoding a request and parsing the bytes gives the request back, field
/// for field and with the headers in order, when its URI and each header read
/// back alone, its start line holds no `\r\n` before its end, its body has the
/// length that a Content-Length header declares, and an empty body is absent.
#[verifier::rlimit(30)]
pub proof fn lemma_request_round_trip(r: Request)
    requires
        uri_reads_back(r.uri),
        crlf_index(request_line(r) + crlf(), 0) == request_line(r).len(),
        forall|k: int| 0 <= k < r.headers@.len() ==> header_reads_back(#[trigger] r.headers@[k]),
        match declared_length(r) {
            Some(n) => body_wire(r.body).len() == n,
            None => true,
        },
        body_wire(r.body).len() == 0 ==> r.body is None,
    ensures
        parse_outcome(request_wire(r)) == Ok::<bool, ParseError>(true),
        request_read(r, request_wire(r)),
{
    let w = request_wire(r);
    let sl = request_line(r);
    let hw = headers_wire(r.headers@);
    let body = body_wire(r.body);
    lemma_request_start_line(r);
    let pos = sl.len() as int + 2;
    let end = pos + hw.len() as int + 2;
    assert(w =~= (sl + crlf()) + (hw + crlf()) + body);
    assert(w.subrange(pos, end) =~= hw + crlf());
    lemma_header_block(w, pos, r.headers@);
    let ls = lines_of(r.headers@);
    assert(header_lines(w, crlf_index(w, 0) + 2) == Ok::<(Seq<HeaderLine>, int), ParseError>(
        (ls, end),
    ));
    assert(tail(w, end) =~= body);
    match declared_length(r) {
        Some(n) => {
            assert(w.subrange(end, end + n as int) =~= body);
        },
        None => {},
    }
    assert(body_bytes(w, end, content_length_in(ls)) == Ok::<Seq<u8>, ParseError>(body));
    assert(body_read(r.body, body));
    assert(headers_read(r.headers@, ls));
}

} // verus!

verus! {

/// `s` holds no byte `x`.
pub open spec fn lacks(s: Seq<u8>, x: u8) -> bool {
    forall|i: int| 0 <= i < s.len() ==> s[i] != x
}

proof fn lemma_lacks_concat(a: Seq<u8>, b: Seq<u8>, x: u8)
    requires
        lacks(a, x),
        lacks(b, x),
    ensures
        lacks(a + b, x),
{
    assert forall|i: int| 0 <= i < (a + b).len() implies (a + b)[i] != x by {
        if i >= a.len() {
            assert((a + b)[i] == b[i - a.len()]);
        }
    }
}

proof fn lemma_decimal_lacks(n: nat, x: u8)
    requires
        !(48 <= x <= 57),
    ensures
        lacks(decimal(n), x),
{
    lemma_decimal_digits(n);
}

proof fn lemma_text_nonempty(s: Seq<char>)
    requires
        s.len() > 0,
    ensures
        text(s).len() > 0,
{
    assert(text(s) == vstd::utf8::encode_scalar(s[0] as u32) + text(s.drop_first()));
}

/// A host whose text gives it back: well formed, and when it has no port,
/// its address does not itself end in `:` and digits.
pub open spec fn host_reads_back_when(h: SipHost) -> bool {
    &&& h.wf()
    &&& (h.port is None ==> port_colon(text(h.address@)) < 0)
}

/// A well-formed host, written out, reads back as itself.
pub proof fn lemma_host_round_trip(h: SipHost)
    requires
        host_reads_back_when(h),
    ensures
        crate::address::host_text_ok(host_wire(h)),
        crate::address::host_read_from(h, host_wire(h)),
{
    broadcast use vstd::utf8::encode_utf8_valid_utf8;

    let a = text(h.address@);
    lemma_text_nonempty(h.address@);
    match h.port {
        Some(p) => {
            let d = decimal(p as nat);
            let w = host_wire(h);
            lemma_decimal_digits(p as nat);
            lemma_decimal_lacks(p as nat, 58u8);
            lemma_last_index_none(d, 58u8);
            lemma_last_index_concat(a + seq![58u8], d, 58u8);
            lemma_last_index_none(Seq::<u8>::empty(), 58u8);
            lemma_last_index_concat(a, seq![58u8], 58u8);
            assert(last_index(seq![58u8], 58u8) == 0);
            assert(w == (a + seq![58u8]) + d);
            assert(last_index(w, 58u8) == a.len());
            assert(w.subrange(a.len() as int + 1, w.len() as int) =~= d);
            assert(port_colon(w) == a.len());
            assert(host_address_of(w) =~= a);
        },
        None => {},
    }
}

/// A URI reads back when its host does, neither the address nor the user
/// holds a space, and the address holds no `@`.
pub open spec fn uri_reads_back_when(u: SipUri) -> bool {
    &&& host_reads_back_when(u.host)
    &&& lacks(text(u.host.address@), 32u8)
    &&& lacks(text(u.host.address@), 64u8)
    &&& (u.user matches Some(user) ==> lacks(text(user@), 32u8))
}

proof fn lemma_host_wire_lacks(h: SipHost, x: u8)
    requires
        lacks(text(h.address@), x),
        x != 58u8,
        !(48 <= x <= 57),
    ensures
        lacks(host_wire(h), x),
{
    match h.port {
        Some(p) => {
            lemma_decimal_lacks(p as nat, x);
            lemma_lacks_concat(text(h.address@), seq![58u8], x);
            lemma_lacks_concat(text(h.address@) + seq![58u8], decimal(p as nat), x);
        },
        None => {},
    }
}

/// Such a URI, written out, reads back as itself, and its text holds no
/// space.
pub proof fn lemma_uri_round_trip(u: SipUri)
    requires
        uri_reads_back_when(u),
    ensures
        uri_reads_back(u),
{
    broadcast use vstd::utf8::encode_utf8_valid_utf8;

    let w = uri_wire(u);
    let hw = host_wire(u.host);
    lemma_host_round_trip(u.host);
    lemma_host_wire_lacks(u.host, 64u8);
    lemma_host_wire_lacks(u.host, 32u8);
    lemma_last_index_none(hw, 64u8);
    assert(w.subrange(0, 4) =~= sip_scheme());
    assert(lacks(sip_scheme(), 32u8));
    match u.user {
        Some(user) => {
            let t = text(user@);
            assert(uri_rest(w) =~= (t + seq![64u8]) + hw);
            lemma_last_index_concat(t + seq![64u8], hw, 64u8);
            lemma_last_index_concat(t, seq![64u8], 64u8);
            assert(last_index(seq![64u8], 64u8) == 0);
            assert(uri_at(w) == t.len());
            assert(uri_rest(w).subrange(0, uri_at(w)) =~= t);
            assert(uri_host_text(w) =~= hw);
            lemma_lacks_concat(sip_scheme(), t, 32u8);
            lemma_lacks_concat(sip_scheme() + t, seq![64u8], 32u8);
            lemma_lacks_concat(sip_scheme() + t + seq![64u8], hw, 32u8);
        },
        None => {
            assert(uri_rest(w) =~= hw);
            assert(uri_host_text(w) =~= hw);
            lemma_lacks_concat(sip_scheme(), hw, 32u8);
        },
    }
    lemma_first_index_none(w, 32u8);
}

} // verus!

verus! {

/// A line without `\r` ends at the line end that follows it.
pub proof fn lemma_line_without_cr(line: Seq<u8>)
    requires
        lacks(line, 13u8),
    ensures
        crlf_index(line + crlf(), 0) == line.len(),
{
    lemma_line_without_cr_from(line, 0);
}

proof fn lemma_line_without_cr_from(line: Seq<u8>, k: int)
    requires
        lacks(line, 13u8),
        0 <= k <= line.len(),
    ensures
        crlf_index(line + crlf(), k) == line.len(),
    decreases line.len() - k,
{
    let s = line + crlf();
    if k < line.len() {
        assert(s[k] == line[k]);
        lemma_line_without_cr_from(line, k + 1);
    } else {
        assert(s[k] == 13u8 && s[k + 1] == 10u8);
    }
}

proof fn lemma_line_reads_back(h: Header)
    requires
        lacks(header_wire(h), 13u8),
        lacks(header_name(h), 58u8),
        header_value(h).len() > 0,
        !is_ws(header_value(h)[0]),
        !is_ws(header_value(h).last()),
        header_line_ok(header_name(h), header_value(h)),
        header_read(h, header_name(h), header_value(h)),
    ensures
        header_reads_back(h),
{
    let (n, v, line) = (header_name(h), header_value(h), header_wire(h));
    lemma_line_without_cr(line);
    lemma_first_index_none(n, 58u8);
    lemma_first_index_concat(n, seq![58u8, 32u8] + v, 58u8);
    assert(line =~= n + (seq![58u8, 32u8] + v));
    assert(first_index(seq![58u8, 32u8] + v, 58u8) == 0);
    let t = tail(line, n.len() as int + 1);
    assert(t =~= seq![32u8] + v);
    assert(t.drop_first() =~= v);
    assert(trim_front(t) == trim_front(v));
    assert(trim_front(v) == v);
    assert(trim_back(v) == v);
}

/// The lower-case field names that the parser matches, as bytes.
proof fn lemma_name_bytes()
    ensures
        text("via"@) == seq![118u8, 105, 97],
        text("call-id"@) == seq![99u8, 97, 108, 108, 45, 105, 100],
        text("cseq"@) == seq![99u8, 115, 101, 113],
        text("max-forwards"@) == seq![109u8, 97, 120, 45, 102, 111, 114, 119, 97, 114, 100, 115],
        text("content-length"@) == seq![
            99u8,
            111,
            110,
            116,
            101,
            110,
            116,
            45,
            108,
            101,
            110,
            103,
            116,
            104,
        ],
        text("from"@) == seq![102u8, 114, 111, 109],
        text("to"@) == seq![116u8, 111],
        text("contact"@) == seq![99u8, 111, 110, 116, 97, 99, 116],
{
    reveal_strlit("via");
    reveal_strlit("call-id");
    reveal_strlit("cseq");
    reveal_strlit("max-forwards");
    reveal_strlit("content-length");
    reveal_strlit("from");
    reveal_strlit("to");
    reveal_strlit("contact");
    lemma_ascii_token("via"@);
    lemma_ascii_token("call-id"@);
    lemma_ascii_token("cseq"@);
    lemma_ascii_token("max-forwards"@);
    lemma_ascii_token("content-length"@);
    lemma_ascii_token("from"@);
    lemma_ascii_token("to"@);
    lemma_ascii_token("contact"@);
    assert(text("via"@) =~= seq![118u8, 105, 97]);
    assert(text("call-id"@) =~= seq![99u8, 97, 108, 108, 45, 105, 100]);
    assert(text("cseq"@) =~= seq![99u8, 115, 101, 113]);
    assert(text("max-forwards"@) =~= seq![109u8, 97, 120, 45, 102, 111, 114, 119, 97, 114, 100, 115]);
    assert(text("content-length"@) =~= seq![99u8, 111, 110, 116, 101, 110, 116, 45, 108, 101, 110, 103, 116, 104]);
    assert(text("from"@) =~= seq![102u8, 114, 111, 109]);
    assert(text("to"@) =~= seq![116u8, 111]);
    assert(text("contact"@) =~= seq![99u8, 111, 110, 116, 97, 99, 116]);
}

/// The canonical names of the fixed headers, as the wire carries them.
proof fn lemma_canonical_name_bytes()
    ensures
        text("CSeq"@) == seq![67u8, 83, 101, 113],
        text("Max-Forwards"@) == seq![77u8, 97, 120, 45, 70, 111, 114, 119, 97, 114, 100, 115],
        text("Content-Length"@) == seq![
            67u8,
            111,
            110,
            116,
            101,
            110,
            116,
            45,
            76,
            101,
            110,
            103,
            116,
            104,
        ],
        text("Contact"@) == seq![67u8, 111, 110, 116, 97, 99, 116],
{
    reveal_strlit("CSeq");
    reveal_strlit("Max-Forwards");
    reveal_strlit("Content-Length");
    reveal_strlit("Contact");
    lemma_ascii_token("CSeq"@);
    lemma_ascii_token("Max-Forwards"@);
    lemma_ascii_token("Content-Length"@);
    lemma_ascii_token("Contact"@);
    assert(text("CSeq"@) =~= seq![67u8, 83, 101, 113]);
    assert(text("Max-Forwards"@) =~= seq![77u8, 97, 120, 45, 70, 111, 114, 119, 97, 114, 100, 115]);
    assert(text("Content-Length"@) =~= seq![67u8, 111, 110, 116, 101, 110, 116, 45, 76, 101, 110, 103, 116, 104]);
    assert(text("Contact"@) =~= seq![67u8, 111, 110, 116, 97, 99, 116]);
}

proof fn lemma_decimal_value_edges(n: nat)
    ensures
        decimal(n).len() > 0,
        !is_ws(decimal(n)[0]),
        !is_ws(decimal(n).last()),
        lacks(decimal(n), 13u8),
        lacks(decimal(n), 32u8),
{
    lemma_decimal_digits(n);
    lemma_decimal_lacks(n, 13u8);
    lemma_decimal_lacks(n, 32u8);
}

#[verifier::rlimit(80)]
proof fn lemma_max_forwards_reads_back(hops: u16)
    ensures
        header_reads_back(Header::MaxForwards(MaxForwards { hops })),
{
    lemma_name_bytes();
    lemma_canonical_name_bytes();
    let mf = Header::MaxForwards(MaxForwards { hops });
    lemma_decimal_value_edges(hops as nat);
    lemma_decimal_digits(hops as nat);
    assert(name_matches(header_name(mf), text("max-forwards"@)));
    assert(!name_matches(header_name(mf), text("via"@)));
    assert(!name_matches(header_name(mf), text("call-id"@)));
    assert(!name_matches(header_name(mf), text("cseq"@)));
    assert(number_ok(header_value(mf), 65535));
    assert(lacks(header_name(mf), 58u8));
    assert(lacks(header_name(mf), 13u8));
    lemma_lacks_concat(header_name(mf), seq![58u8, 32u8], 13u8);
    lemma_lacks_concat(header_name(mf) + seq![58u8, 32u8], header_value(mf), 13u8);
    lemma_line_reads_back(mf);

}

#[verifier::rlimit(80)]
proof fn lemma_content_length_reads_back(bytes: u16)
    ensures
        header_reads_back(Header::ContentLength(ContentLength { bytes })),
{
    lemma_name_bytes();
    lemma_canonical_name_bytes();
    let cl = Header::ContentLength(ContentLength { bytes });
    lemma_decimal_value_edges(bytes as nat);
    lemma_decimal_digits(bytes as nat);
    assert(name_matches(header_name(cl), text("content-length"@)));
    assert(!name_matches(header_name(cl), text("via"@)));
    assert(!name_matches(header_name(cl), text("call-id"@)));
    assert(!name_matches(header_name(cl), text("cseq"@)));
    assert(!name_matches(header_name(cl), text("max-forwards"@)));
    assert(number_ok(header_value(cl), 65535));
    assert(lacks(header_name(cl), 58u8));
    assert(lacks(header_name(cl), 13u8));
    lemma_lacks_concat(header_name(cl), seq![58u8, 32u8], 13u8);
    lemma_lacks_concat(header_name(cl) + seq![58u8, 32u8], header_value(cl), 13u8);
    lemma_line_reads_back(cl);

}

proof fn lemma_method_token_edges(method: Method)
    ensures
        lacks(method_token(method), 13u8),
        method_token(method).len() > 0,
        !is_ws(method_token(method).last()),
{
    lemma_token_bytes();
    match method {
        Method::Register => {},
        Method::Invite => {},
        Method::Ack => {},
        Method::Cancel => {},
        Method::Buy => {},
        Method::Options => {},
    }
}

#[verifier::rlimit(30)]
proof fn lemma_cseq_value(number: u32, method: Method)
    ensures
        cseq_ok(header_value(Header::CSeq(CSeq { number, method }))),
        cseq_read(CSeq { number, method }, header_value(Header::CSeq(CSeq { number, method }))),
        lacks(header_value(Header::CSeq(CSeq { number, method })), 13u8),
        header_value(Header::CSeq(CSeq { number, method })).len() > 0,
        !is_ws(header_value(Header::CSeq(CSeq { number, method }))[0]),
        !is_ws(header_value(Header::CSeq(CSeq { number, method })).last()),
{
    let cs = Header::CSeq(CSeq { number, method });
    lemma_decimal_value_edges(number as nat);
    lemma_decimal_digits(number as nat);
    let d = decimal(number as nat);
    let mt = method_token(method);
    lemma_method_token_edges(method);
    lemma_tokens_without_space(method, SipVersion::Sip);
    let v = header_value(cs);
    lemma_first_index_none(d, 32u8);
    lemma_first_index_concat(d, seq![32u8] + mt, 32u8);
    assert(v =~= d + (seq![32u8] + mt));
    assert(first_index(seq![32u8] + mt, 32u8) == 0);
    assert(first_index(v, 32u8) == d.len());
    assert(v.subrange(0, d.len() as int) =~= d);
    assert(tail(v, d.len() as int + 1) =~= mt);
    lemma_token_round_trip(method, SipVersion::Sip);
    assert(number_ok(d, 0xffff_ffff));
    lemma_lacks_concat(d, seq![32u8], 13u8);
    lemma_lacks_concat(d + seq![32u8], mt, 13u8);
    assert(v =~= d + seq![32u8] + mt);
    assert(v[0] == d[0]);
    assert(v.last() == mt.last());
}

#[verifier::rlimit(80)]
proof fn lemma_cseq_reads_back(number: u32, method: Method)
    ensures
        header_reads_back(Header::CSeq(CSeq { number, method })),
{
    lemma_name_bytes();
    lemma_canonical_name_bytes();
    let cs = Header::CSeq(CSeq { number, method });
    lemma_cseq_value(number, method);
    let v = header_value(cs);
    assert(name_matches(header_name(cs), text("cseq"@)));
    assert(!name_matches(header_name(cs), text("via"@)));
    assert(!name_matches(header_name(cs), text("call-id"@)));
    assert(lacks(header_name(cs), 58u8));
    assert(lacks(header_name(cs), 13u8));
    lemma_lacks_concat(header_name(cs), seq![58u8, 32u8], 13u8);
    lemma_lacks_concat(header_name(cs) + seq![58u8, 32u8], v, 13u8);
    lemma_line_reads_back(cs);
}

#[verifier::rlimit(80)]
proof fn lemma_contact_reads_back()
    ensures
        header_reads_back(Header::Contact(Contact {})),
{
    lemma_name_bytes();
    lemma_canonical_name_bytes();
    let ct = Header::Contact(Contact {});
    assert(name_matches(header_name(ct), text("contact"@)));
    assert(!name_matches(header_name(ct), text("via"@)));
    assert(!name_matches(header_name(ct), text("call-id"@)));
    assert(!name_matches(header_name(ct), text("cseq"@)));
    assert(!name_matches(header_name(ct), text("max-forwards"@)));
    assert(!name_matches(header_name(ct), text("content-length"@)));
    assert(!name_matches(header_name(ct), text("from"@)));
    assert(!name_matches(header_name(ct), text("to"@)));
    assert(lacks(header_name(ct), 58u8));
    assert(lacks(header_wire(ct), 13u8));
    lemma_line_reads_back(ct);
}

/// Max-Forwards, Content-Length, CSeq and Contact headers always read back.
pub proof fn lemma_fixed_headers_read_back(hops: u16, bytes: u16, number: u32, method: Method)
    ensures
        header_reads_back(Header::MaxForwards(MaxForwards { hops })),
        header_reads_back(Header::ContentLength(ContentLength { bytes })),
        header_reads_back(Header::CSeq(CSeq { number, method })),
        header_reads_back(Header::Contact(Contact {})),
{
    lemma_max_forwards_reads_back(hops);
    lemma_content_length_reads_back(bytes);
    lemma_cseq_reads_back(number, method);
    lemma_contact_reads_back();
}

} // verus!

verus! {

pub open spec fn same_text(a: Option<String>, b: Option<String>) -> bool {
    match (a, b) {
        (None, None) => true,
        (Some(x), Some(y)) => x@ == y@,
        _ => false,
    }
}

pub open spec fn same_host(a: SipHost, b: SipHost) -> bool {
    a.address@ == b.address@ && a.port == b.port
}

pub open spec fn same_uri(a: SipUri, b: SipUri) -> bool {
    same_text(a.user, b.user) && same_host(a.host, b.host)
}

/// Two headers of the same kind with the same field values.
pub open spec fn same_header(a: Header, b: Header) -> bool {
    match (a, b) {
        (Header::Via(x), Header::Via(y)) => x.version == y.version && x.transport@ == y.transport@
            && same_host(x.host, y.host) && same_text(x.branch, y.branch) && x.rport == y.rport,
        (Header::CallId(x), Header::CallId(y)) => x.id@ == y.id@,
        (Header::CSeq(x), Header::CSeq(y)) => x.number == y.number && x.method == y.method,
        (Header::MaxForwards(x), Header::MaxForwards(y)) => x.hops == y.hops,
        (Header::ContentLength(x), Header::ContentLength(y)) => x.bytes == y.bytes,
        (Header::From(x), Header::From(y)) => same_uri(x.uri, y.uri) && same_text(x.tag, y.tag),
        (Header::To(x), Header::To(y)) => same_uri(x.uri, y.uri) && same_text(x.tag, y.tag),
        (Header::Contact(_), Header::Contact(_)) => true,
        (Header::UserAgent(x), Header::UserAgent(y)) => x.name@ == y.name@,
        (Header::Raw(x), Header::Raw(y)) => x.name@ == y.name@ && x.value@ == y.value@,
        _ => false,
    }
}

/// Two requests with the same fields, headers in the same order.
pub open spec fn same_request(a: Request, b: Request) -> bool {
    &&& a.method == b.method
    &&& same_uri(a.uri, b.uri)
    &&& a.version == b.version
    &&& a.headers@.len() == b.headers@.len()
    &&& forall|k: int| 0 <= k < a.headers@.len() ==> same_header(a.headers@[k], b.headers@[k])
    &&& match (a.body, b.body) {
        (None, None) => true,
        (Some(x), Some(y)) => x@ == y@,
        _ => false,
    }
}

proof fn lemma_text_injective(a: Seq<char>, b: Seq<char>)
    requires
        text(a) == text(b),
    ensures
        a == b,
{
    vstd::utf8::encode_utf8_decode_utf8(a);
    vstd::utf8::encode_utf8_decode_utf8(b);
}

proof fn lemma_opt_text_injective(a: Option<String>, b: Option<String>)
    requires
        a is Some <==> b is Some,
        a is Some ==> text(a->0@) == text(b->0@),
    ensures
        same_text(a, b),
{
    if a is Some {
        lemma_text_injective(a->0@, b->0@);
    }
}

proof fn lemma_host_read_unique(a: SipHost, b: SipHost, t: Seq<u8>)
    requires
        crate::address::host_read_from(a, t),
        crate::address::host_read_from(b, t),
    ensures
        same_host(a, b),
{
    lemma_text_injective(a.address@, b.address@);
}

proof fn lemma_uri_read_unique(a: SipUri, b: SipUri, t: Seq<u8>)
    requires
        uri_read_from(a, t),
        uri_read_from(b, t),
    ensures
        same_uri(a, b),
{
    lemma_opt_text_injective(a.user, b.user);
    lemma_host_read_unique(a.host, b.host, uri_host_text(t));
}

proof fn lemma_header_read_unique(a: Header, b: Header, name: Seq<u8>, value: Seq<u8>)
    requires
        header_read(a, name, value),
        header_read(b, name, value),
    ensures
        same_header(a, b),
{
    match (a, b) {
        (Header::Via(x), Header::Via(y)) => {
            let hb = crate::header::via_host_text(value);
            lemma_text_injective(x.transport@, y.transport@);
            lemma_host_read_unique(x.host, y.host, hb);
            lemma_opt_text_injective(x.branch, y.branch);
        },
        (Header::CallId(x), Header::CallId(y)) => lemma_text_injective(x.id@, y.id@),
        (Header::From(x), Header::From(y)) => {
            lemma_uri_read_unique(x.uri, y.uri, value.subrange(1, crate::header::addr_close(value)));
            lemma_opt_text_injective(x.tag, y.tag);
        },
        (Header::To(x), Header::To(y)) => {
            lemma_uri_read_unique(x.uri, y.uri, value.subrange(1, crate::header::addr_close(value)));
            lemma_opt_text_injective(x.tag, y.tag);
        },
        (Header::UserAgent(x), Header::UserAgent(y)) => lemma_text_injective(x.name@, y.name@),
        (Header::Raw(x), Header::Raw(y)) => {
            lemma_text_injective(x.name@, y.name@);
            lemma_text_injective(x.value@, y.value@);
        },
        _ => {},
    }
}

/// Parsing decides every field: two requests that both are what `b` holds
/// are the same request.
pub proof fn lemma_request_read_unique(a: Request, b: Request, w: Seq<u8>)
    requires
        request_read(a, w),
        request_read(b, w),
    ensures
        same_request(a, b),
{
    let line = start_line(w);
    lemma_uri_read_unique(a.uri, b.uri, token1(line));
    let (ls, end) = header_lines(w, crlf_index(w, 0) + 2)->Ok_0;
    assert forall|k: int| 0 <= k < a.headers@.len() implies same_header(
        a.headers@[k],
        b.headers@[k],
    ) by {
        lemma_header_read_unique(a.headers@[k], b.headers@[k], ls[k].0, ls[k].1);
    }
}

/// Decoding the encoding of a request gives a request equal to it, field for
/// field, with the headers in order, under the conditions of
/// `lemma_request_round_trip`.
pub proof fn lemma_decode_encode(r: Request, q: Request)
    requires
        uri_reads_back(r.uri),
        crlf_index(request_line(r) + crlf(), 0) == request_line(r).len(),
        forall|k: int| 0 <= k < r.headers@.len() ==> header_reads_back(#[trigger] r.headers@[k]),
        match declared_length(r) {
            Some(n) => body_wire(r.body).len() == n,
            None => true,
        },
        body_wire(r.body).len() == 0 ==> r.body is None,
        request_read(q, request_wire(r)),
    ensures
        same_request(q, r),
{
    lemma_request_round_trip(r);
    lemma_request_read_unique(q, r, request_wire(r));
}

} // verus!

verus! {

/// A text that can stand as a header value on its own: not empty, no `\r`,
/// no space or tab at either end.
pub open spec fn plain_value(t: Seq<u8>) -> bool {
    &&& t.len() > 0
    &&& lacks(t, 13u8)
    &&& !is_ws(t[0])
    &&& !is_ws(t.last())
}

proof fn lemma_more_name_bytes()
    ensures
        text("Call-ID"@) == seq![67u8, 97, 108, 108, 45, 73, 68],
        text("User-Agent"@) == seq![85u8, 115, 101, 114, 45, 65, 103, 101, 110, 116],
        text("user-agent"@) == seq![117u8, 115, 101, 114, 45, 97, 103, 101, 110, 116],
{
    reveal_strlit("Call-ID");
    reveal_strlit("User-Agent");
    reveal_strlit("user-agent");
    lemma_ascii_token("Call-ID"@);
    lemma_ascii_token("User-Agent"@);
    lemma_ascii_token("user-agent"@);
    assert(text("Call-ID"@) =~= seq![67u8, 97, 108, 108, 45, 73, 68]);
    assert(text("User-Agent"@) =~= seq![85u8, 115, 101, 114, 45, 65, 103, 101, 110, 116]);
    assert(text("user-agent"@) =~= seq![117u8, 115, 101, 114, 45, 97, 103, 101, 110, 116]);
}

/// A Call-ID header reads back when its id is a plain value.
#[verifier::rlimit(80)]
pub proof fn lemma_call_id_reads_back(c: CallId)
    requires
        plain_value(text(c.id@)),
    ensures
        header_reads_back(Header::CallId(c)),
{
    broadcast use vstd::utf8::encode_utf8_valid_utf8;

    lemma_name_bytes();
    lemma_more_name_bytes();
    let h = Header::CallId(c);
    assert(name_matches(header_name(h), text("call-id"@)));
    assert(!name_matches(header_name(h), text("via"@)));
    assert(lacks(header_name(h), 58u8));
    assert(lacks(header_name(h), 13u8));
    lemma_lacks_concat(header_name(h), seq![58u8, 32u8], 13u8);
    lemma_lacks_concat(header_name(h) + seq![58u8, 32u8], header_value(h), 13u8);
    lemma_line_reads_back(h);
}

/// A User-Agent header reads back when its name is a plain value.
#[verifier::rlimit(80)]
pub proof fn lemma_user_agent_reads_back(u: UserAgent)
    requires
        plain_value(text(u.name@)),
    ensures
        header_reads_back(Header::UserAgent(u)),
{
    broadcast use vstd::utf8::encode_utf8_valid_utf8;

    lemma_name_bytes();
    lemma_more_name_bytes();
    let h = Header::UserAgent(u);
    assert(name_matches(header_name(h), text("user-agent"@)));
    assert(!name_matches(header_name(h), text("via"@)));
    assert(!name_matches(header_name(h), text("call-id"@)));
    assert(!name_matches(header_name(h), text("cseq"@)));
    assert(!name_matches(header_name(h), text("max-forwards"@)));
    assert(!name_matches(header_name(h), text("content-length"@)));
    assert(!name_matches(header_name(h), text("from"@)));
    assert(!name_matches(header_name(h), text("to"@)));
    assert(!name_matches(header_name(h), text("contact"@)));
    assert(lacks(header_name(h), 58u8));
    assert(lacks(header_name(h), 13u8));
    lemma_lacks_concat(header_name(h), seq![58u8, 32u8], 13u8);
    lemma_lacks_concat(header_name(h) + seq![58u8, 32u8], header_value(h), 13u8);
    lemma_line_reads_back(h);
}

} // verus!

verus! {

/// The URI and tag of a From or To header that read back: the URI reads
/// back, its text holds no `>` and no `\r`, and the tag holds no `\r` or `;`
/// and does not end in white space.
pub open spec fn addr_reads_back_when(uri: SipUri, tag: Option<String>) -> bool {
    &&& uri_reads_back_when(uri)
    &&& lacks(uri_wire(uri), 62u8)
    &&& lacks(uri_wire(uri), 13u8)
    &&& (tag matches Some(t) ==> lacks(text(t@), 13u8) && lacks(text(t@), 59u8) && (text(t@).len()
        > 0 ==> !is_ws(
        text(t@).last(),
    )))
}

proof fn lemma_tag_param_bytes()
    ensures
        lacks(tag_param(), 13u8),
        lacks(tag_param(), 62u8),
        tag_param().len() == 5,
        !is_ws(tag_param().last()),
{
}

proof fn lemma_addr_value(uri: SipUri, tag: Option<String>)
    requires
        addr_reads_back_when(uri, tag),
    ensures
        addr_ok(addr_value(uri, tag)),
        addr_read(uri, tag, addr_value(uri, tag)),
        plain_value(addr_value(uri, tag)),
{
    broadcast use vstd::utf8::encode_utf8_valid_utf8;

    lemma_uri_round_trip(uri);
    lemma_tag_param_bytes();
    let u = uri_wire(uri);
    let v = addr_value(uri, tag);
    let after = crate::header::opt_text(tag_param(), tag);
    assert(v =~= seq![60u8] + u + (seq![62u8] + after));
    assert(lacks(seq![60u8], 62u8));
    lemma_lacks_concat(seq![60u8], u, 62u8);
    lemma_first_index_none(seq![60u8] + u, 62u8);
    lemma_first_index_concat(seq![60u8] + u, seq![62u8] + after, 62u8);
    assert(first_index(seq![62u8] + after, 62u8) == 0);
    assert(addr_close(v) == u.len() + 1);
    assert(v.subrange(1, addr_close(v)) =~= u);
    assert(addr_after(v) =~= after);
    match tag {
        Some(t) => {
            assert(after.subrange(0, 5) =~= tag_param());
            assert(tail(after, 5) =~= text(t@));
            lemma_first_index_none(text(t@), 59u8);
            lemma_lacks_concat(tag_param(), text(t@), 13u8);
            if text(t@).len() > 0 {
                assert(after.last() == text(t@).last());
            }
        },
        None => {},
    }
    assert(lacks(seq![60u8], 13u8));
    lemma_lacks_concat(seq![60u8], u, 13u8);
    assert(lacks(seq![62u8], 13u8));
    lemma_lacks_concat(seq![62u8], after, 13u8);
    lemma_lacks_concat(seq![60u8] + u, seq![62u8] + after, 13u8);
    assert(v[0] == 60u8);
}

/// A From header reads back when its URI and tag do.
#[verifier::rlimit(80)]
pub proof fn lemma_from_reads_back(f: From)
    requires
        addr_reads_back_when(f.uri, f.tag),
    ensures
        header_reads_back(Header::From(f)),
{
    lemma_name_bytes();
    reveal_strlit("From");
    lemma_ascii_token("From"@);
    assert(text("From"@) =~= seq![70u8, 114, 111, 109]);
    lemma_addr_value(f.uri, f.tag);
    let h = Header::From(f);
    assert(name_matches(header_name(h), text("from"@)));
    assert(!name_matches(header_name(h), text("via"@)));
    assert(!name_matches(header_name(h), text("call-id"@)));
    assert(!name_matches(header_name(h), text("cseq"@)));
    assert(!name_matches(header_name(h), text("max-forwards"@)));
    assert(!name_matches(header_name(h), text("content-length"@)));
    assert(lacks(header_name(h), 58u8));
    assert(lacks(header_name(h), 13u8));
    lemma_lacks_concat(header_name(h), seq![58u8, 32u8], 13u8);
    lemma_lacks_concat(header_name(h) + seq![58u8, 32u8], header_value(h), 13u8);
    lemma_line_reads_back(h);
}

/// A To header reads back when its URI and tag do.
#[verifier::rlimit(80)]
pub proof fn lemma_to_reads_back(t: To)
    requires
        addr_reads_back_when(t.uri, t.tag),
    ensures
        header_reads_back(Header::To(t)),
{
    lemma_name_bytes();
    reveal_strlit("To");
    lemma_ascii_token("To"@);
    assert(text("To"@) =~= seq![84u8, 111]);
    lemma_addr_value(t.uri, t.tag);
    let h = Header::To(t);
    assert(name_matches(header_name(h), text("to"@)));
    assert(!name_matches(header_name(h), text("via"@)));
    assert(!name_matches(header_name(h), text("call-id"@)));
    assert(!name_matches(header_name(h), text("cseq"@)));
    assert(!name_matches(header_name(h), text("max-forwards"@)));
    assert(!name_matches(header_name(h), text("content-length"@)));
    assert(!name_matches(header_name(h), text("from"@)));
    assert(lacks(header_name(h), 58u8));
    assert(lacks(header_name(h), 13u8));
    lemma_lacks_concat(header_name(h), seq![58u8, 32u8], 13u8);
    lemma_lacks_concat(header_name(h) + seq![58u8, 32u8], header_value(h), 13u8);
    lemma_line_reads_back(h);
}

} // verus!

verus! {

/// The fields of a Via header that read back: the transport holds no `/`,
/// space or `\r`; the host reads back and its address holds no `;` or `\r`;
/// the branch holds no `;` or `\r`; and the value does not end in white
/// space.
pub open spec fn via_reads_back_when(v: Via) -> bool {
    &&& lacks(text(v.transport@), 47u8)
    &&& lacks(text(v.transport@), 32u8)
    &&& lacks(text(v.transport@), 13u8)
    &&& host_reads_back_when(v.host)
    &&& lacks(text(v.host.address@), 59u8)
    &&& lacks(text(v.host.address@), 13u8)
    &&& (v.branch matches Some(b) ==> lacks(text(b@), 59u8) && lacks(text(b@), 13u8))
    &&& !is_ws(via_value(v).last())
}

proof fn lemma_via_params(v: Via)
    requires
        via_reads_back_when(v),
    ensures
        via_params_ok(opt_text(branch_param(), v.branch) + opt_decimal(rport_param(), v.rport)),
        via_params_read(
            v.branch,
            v.rport,
            opt_text(branch_param(), v.branch) + opt_decimal(rport_param(), v.rport),
        ),
        lacks(opt_text(branch_param(), v.branch) + opt_decimal(rport_param(), v.rport), 13u8),
{
    broadcast use vstd::utf8::encode_utf8_valid_utf8;

    let b = opt_text(branch_param(), v.branch);
    let r = opt_decimal(rport_param(), v.rport);
    let p = b + r;
    match v.rport {
        Some(n) => {
            lemma_decimal_digits(n as nat);
            lemma_decimal_lacks(n as nat, 13u8);
            lemma_decimal_lacks(n as nat, 59u8);
            assert(r.subrange(0, 7) =~= rport_param());
            assert(tail(r, 7) =~= decimal(n as nat));
            assert(rport_ok(r));
            assert(lacks(rport_param(), 13u8));
            lemma_lacks_concat(rport_param(), decimal(n as nat), 13u8);
            assert(r[0] == 59u8);
        },
        None => {},
    }
    match v.branch {
        Some(t) => {
            let tb = text(t@);
            assert(p.subrange(0, 8) =~= branch_param());
            let q = tail(p, 8);
            assert(q =~= tb + r);
            lemma_first_index_none(tb, 59u8);
            if r.len() > 0 {
                lemma_first_index_concat(tb, r, 59u8);
                lemma_first_index_at(r, 59u8, 0);
                assert(q.subrange(0, tb.len() as int) =~= tb);
                assert(tail(q, tb.len() as int) =~= r);
            } else {
                assert(q =~= tb);
            }
            assert(lacks(branch_param(), 13u8));
            lemma_lacks_concat(branch_param(), tb, 13u8);
        },
        None => {
            assert(p =~= r);
            if r.len() > 0 {
                assert(r[1] != branch_param()[1]);
                assert(r.subrange(0, 8)[1] == r[1]);
            }
        },
    }
    lemma_lacks_concat(b, r, 13u8);
}

#[verifier::rlimit(30)]
proof fn lemma_via_proto(v: Via)
    requires
        via_reads_back_when(v),
    ensures
        via_space(via_value(v)) == (version_token(v.version) + seq![47u8] + text(v.transport@)).len(),
        via_slash(via_value(v)) == version_token(v.version).len(),
        version_from(via_proto(via_value(v)).subrange(0, via_slash(via_value(v))))
            == Ok::<SipVersion, ParseError>(v.version),
        tail(via_proto(via_value(v)), via_slash(via_value(v)) + 1) == text(v.transport@),
        via_after(via_value(v)) == host_wire(v.host) + opt_text(branch_param(), v.branch)
            + opt_decimal(rport_param(), v.rport),
{
    lemma_token_bytes();
    let vt = version_token(v.version);
    let t = text(v.transport@);
    let hw = host_wire(v.host);
    let ps = opt_text(branch_param(), v.branch) + opt_decimal(rport_param(), v.rport);
    let value = via_value(v);
    let proto = vt + seq![47u8] + t;
    lemma_tokens_without_space(Method::Ack, v.version);
    assert(lacks(vt, 32u8)) by {
        match v.version {
            SipVersion::Sip => {},
            SipVersion::Sip2 => {},
        }
    }
    lemma_lacks_concat(vt, seq![47u8], 32u8);
    lemma_lacks_concat(vt + seq![47u8], t, 32u8);
    lemma_first_index_none(proto, 32u8);
    assert(value =~= proto + (seq![32u8] + (hw + ps)));
    lemma_first_index_concat(proto, seq![32u8] + (hw + ps), 32u8);
    assert(first_index(seq![32u8] + (hw + ps), 32u8) == 0);
    assert(via_space(value) == proto.len());
    assert(via_proto(value) =~= proto);
    lemma_last_index_none(t, 47u8);
    lemma_last_index_concat(vt + seq![47u8], t, 47u8);
    lemma_last_index_concat(vt, seq![47u8], 47u8);
    assert(last_index(seq![47u8], 47u8) == 0);
    assert(via_slash(value) == vt.len());
    assert(proto.subrange(0, vt.len() as int) =~= vt);
    assert(tail(proto, vt.len() as int + 1) =~= t);
    lemma_token_round_trip(Method::Ack, v.version);
    assert(via_after(value) =~= hw + ps);
}

#[verifier::rlimit(30)]
proof fn lemma_via_split(v: Via)
    requires
        via_reads_back_when(v),
    ensures
        via_host_text(via_value(v)) == host_wire(v.host),
        via_params(via_value(v)) == opt_text(branch_param(), v.branch) + opt_decimal(
            rport_param(),
            v.rport,
        ),
{
    let hw = host_wire(v.host);
    let ps = opt_text(branch_param(), v.branch) + opt_decimal(rport_param(), v.rport);
    let value = via_value(v);
    lemma_via_proto(v);
    assert(via_after(value) =~= hw + ps);
    lemma_host_wire_lacks(v.host, 59u8);
    lemma_first_index_none(hw, 59u8);
    if ps.len() > 0 {
        assert(ps[0] == 59u8) by {
            if v.branch is None {
                assert(ps =~= opt_decimal(rport_param(), v.rport));
            }
        }
        lemma_first_index_at(ps, 59u8, 0);
        lemma_first_index_concat(hw, ps, 59u8);
        assert(via_semi(value) == hw.len());
        assert(via_host_text(value) =~= hw);
        assert(via_params(value) =~= ps);
    } else {
        lemma_first_index_none(ps, 59u8);
        lemma_first_index_concat(hw, ps, 59u8);
        assert(via_host_text(value) =~= hw);
        assert(via_params(value) =~= ps);
    }
}

#[verifier::rlimit(30)]
proof fn lemma_via_value(v: Via)
    requires
        via_reads_back_when(v),
    ensures
        via_ok(via_value(v)),
        via_read(v, via_value(v)),
        lacks(via_value(v), 13u8),
        via_value(v).len() > 0,
        !is_ws(via_value(v)[0]),
{
    broadcast use vstd::utf8::encode_utf8_valid_utf8;

    lemma_via_proto(v);
    lemma_via_split(v);
    lemma_via_params(v);
    lemma_host_round_trip(v.host);
    lemma_via_value_bytes(v);
}

proof fn lemma_via_value_bytes(v: Via)
    requires
        via_reads_back_when(v),
    ensures
        lacks(via_value(v), 13u8),
        via_value(v).len() > 0,
        !is_ws(via_value(v)[0]),
{
    lemma_token_bytes();
    let vt = version_token(v.version);
    let t = text(v.transport@);
    let hw = host_wire(v.host);
    let ps = opt_text(branch_param(), v.branch) + opt_decimal(rport_param(), v.rport);
    let value = via_value(v);
    let proto = vt + seq![47u8] + t;
    lemma_via_params(v);
    lemma_host_wire_lacks(v.host, 13u8);
    assert(lacks(vt, 13u8) && vt[0] == 83u8) by {
        match v.version {
            SipVersion::Sip => {},
            SipVersion::Sip2 => {},
        }
    }
    assert(value =~= vt + seq![47u8] + t + seq![32u8] + hw + ps);
    lemma_lacks_concat(vt, seq![47u8], 13u8);
    lemma_lacks_concat(vt + seq![47u8], t, 13u8);
    lemma_lacks_concat(proto, seq![32u8], 13u8);
    lemma_lacks_concat(proto + seq![32u8], hw, 13u8);
    lemma_lacks_concat(proto + seq![32u8] + hw, ps, 13u8);
    assert(value[0] == vt[0]);
}

/// A Via header reads back when its fields do.
#[verifier::rlimit(30)]
pub proof fn lemma_via_reads_back(v: Via)
    requires
        via_reads_back_when(v),
    ensures
        header_reads_back(Header::Via(v)),
{
    reveal_strlit("Via");
    reveal_strlit("via");
    lemma_ascii_token("Via"@);
    lemma_ascii_token("via"@);
    assert(text("Via"@) =~= seq![86u8, 105, 97]);
    assert(text("via"@) =~= seq![118u8, 105, 97]);
    let h = Header::Via(v);
    lemma_via_value(v);
    assert(name_matches(header_name(h), text("via"@)));
    assert(lacks(header_name(h), 58u8));
    assert(lacks(header_name(h), 13u8));
    lemma_lacks_concat(header_name(h), seq![58u8, 32u8], 13u8);
    lemma_lacks_concat(header_name(h) + seq![58u8, 32u8], header_value(h), 13u8);
    lemma_line_reads_back(h);
}

} // verus!

verus! {

/// The start line of a request ends at its own line end when the URI's text
/// holds no `\r`.
pub proof fn lemma_request_line_ends(r: Request)
    requires
        lacks(uri_wire(r.uri), 13u8),
    ensures
        crlf_index(request_line(r) + crlf(), 0) == request_line(r).len(),
{
    lemma_method_token_edges(r.method);
    let vt = version_token(r.version);
    assert(lacks(vt, 13u8)) by {
        lemma_token_bytes();
        match r.version {
            SipVersion::Sip => {},
            SipVersion::Sip2 => {},
        }
    }
    let m = method_token(r.method);
    lemma_lacks_concat(m, seq![32u8], 13u8);
    lemma_lacks_concat(m + seq![32u8], uri_wire(r.uri), 13u8);
    lemma_lacks_concat(m + seq![32u8] + uri_wire(r.uri), seq![32u8], 13u8);
    lemma_lacks_concat(m + seq![32u8] + uri_wire(r.uri) + seq![32u8], vt, 13u8);
    lemma_line_without_cr(request_line(r));
}

} // verus!

verus! {

proof fn lemma_uri_wire_lacks(u: SipUri, x: u8)
    requires
        lacks(text(u.host.address@), x),
        u.user matches Some(t) ==> lacks(text(t@), x),
        lacks(sip_scheme(), x),
        x != 58u8,
        x != 64u8,
        !(48 <= x <= 57),
    ensures
        lacks(uri_wire(u), x),
{
    lemma_host_wire_lacks(u.host, x);
    match u.user {
        Some(t) => {
            lemma_lacks_concat(sip_scheme(), text(t@), x);
            lemma_lacks_concat(sip_scheme() + text(t@), seq![64u8], x);
            lemma_lacks_concat(sip_scheme() + text(t@) + seq![64u8], host_wire(u.host), x);
        },
        None => {
            lemma_lacks_concat(sip_scheme(), host_wire(u.host), x);
        },
    }
}

/// The start line of an encoded request is the part before its first
/// `\r\n`, and it splits on single spaces into exactly three tokens: the
/// method, the URI and the version, when the URI's user and address hold no
/// space and no `\r`.
pub proof fn lemma_start_line_three_tokens(r: Request)
    requires
        lacks(text(r.uri.host.address@), 32u8),
        lacks(text(r.uri.host.address@), 13u8),
        r.uri.user matches Some(t) ==> lacks(text(t@), 32u8) && lacks(text(t@), 13u8),
    ensures
        start_line(request_wire(r)) == request_line(r),
        space1(request_line(r)) >= 0,
        space2(request_line(r)) >= 0,
        first_index(token2(request_line(r)), 32u8) < 0,
        token0(request_line(r)) == method_token(r.method),
        token1(request_line(r)) == uri_wire(r.uri),
        token2(request_line(r)) == version_token(r.version),
{
    assert(lacks(sip_scheme(), 32u8));
    assert(lacks(sip_scheme(), 13u8));
    lemma_uri_wire_lacks(r.uri, 32u8);
    lemma_uri_wire_lacks(r.uri, 13u8);
    lemma_first_index_none(uri_wire(r.uri), 32u8);
    lemma_request_line_ends(r);
    lemma_start_line_split(r);
}

} // verus!
