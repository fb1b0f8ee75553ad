//! Hosts and SIP URIs: their canonical text and how it is read back.

use vstd::prelude::*;
use crate::token::ParseError;
use crate::wire::{
    all_digits, decimal, digits_value, find_last, last_index, lemma_last_index, parse_decimal,
    push_all, push_decimal, push_text, text, text_from,
};
use vstd::utf8::valid_utf8;

verus! {

#[derive(Debug, Clone)]
pub struct SipHost {
    pub address: String,
    pub port: Option<u16>,
}

#[derive(Debug, Clone)]
pub struct SipUri {
    pub user: Option<String>,
    pub host: SipHost,
}

/// `"sip:"`, the scheme prefix of a URI.
pub open spec fn sip_scheme() -> Seq<u8> {
    seq![115u8, 105, 112, 58]
}

/// `address` alone, or `address:port`.
pub open spec fn host_wire(h: SipHost) -> Seq<u8> {
    match h.port {
        None => text(h.address@),
        Some(p) => text(h.address@) + seq![58u8] + decimal(p as nat),
    }
}

/// `sip:host`, or `sip:user@host`.
pub open spec fn uri_wire(u: SipUri) -> Seq<u8> {
    match u.user {
        None => sip_scheme() + host_wire(u.host),
        Some(user) => sip_scheme() + text(user@) + seq![64u8] + host_wire(u.host),
    }
}

/// The position of the `:` that introduces a port in the text of a host, or
/// -1: the last `:`, when one or more digits and nothing else follow it.
pub open spec fn port_colon(b: Seq<u8>) -> int {
    let i = last_index(b, 58u8);
    if i >= 0 && i + 1 < b.len() && all_digits(b.subrange(i + 1, b.len() as int)) {
        i
    } else {
        -1
    }
}

/// The address part of the text of a host.
pub open spec fn host_address_of(b: Seq<u8>) -> Seq<u8> {
    if port_colon(b) >= 0 {
        b.subrange(0, port_colon(b))
    } else {
        b
    }
}

/// The port that the text of a host gives, if any.
pub open spec fn host_port_of(b: Seq<u8>) -> Option<nat> {
    if port_colon(b) >= 0 {
        Some(digits_value(b.subrange(port_colon(b) + 1, b.len() as int)))
    } else {
        None
    }
}

pub open spec fn port_value(p: Option<u16>) -> Option<nat> {
    match p {
        Some(n) => Some(n as nat),
        None => None,
    }
}

/// Whether `b` is the text of a host: a non-empty address and a port, if
/// any, in 1 to 65535.
pub open spec fn host_text_ok(b: Seq<u8>) -> bool {
    &&& host_address_of(b).len() > 0
    &&& valid_utf8(host_address_of(b))
    &&& match host_port_of(b) {
        Some(p) => 1 <= p <= 65535,
        None => true,
    }
}

/// The host that `h` holds is the one written in `b`.
pub open spec fn host_read_from(h: SipHost, b: Seq<u8>) -> bool {
    &&& text(h.address@) == host_address_of(b)
    &&& port_value(h.port) == host_port_of(b)
}

/// The part of a URI's text after the scheme.
pub open spec fn uri_rest(b: Seq<u8>) -> Seq<u8> {
    b.subrange(4, b.len() as int)
}

/// The position of the `@` that ends the user part, or -1.
pub open spec fn uri_at(b: Seq<u8>) -> int {
    last_index(uri_rest(b), 64u8)
}

pub open spec fn uri_host_text(b: Seq<u8>) -> Seq<u8> {
    let r = uri_rest(b);
    if uri_at(b) >= 0 {
        r.subrange(uri_at(b) + 1, r.len() as int)
    } else {
        r
    }
}

/// Whether `b` is the text of a SIP URI.
pub open spec fn uri_text_ok(b: Seq<u8>) -> bool {
    &&& b.len() >= 4
    &&& b.subrange(0, 4) == sip_scheme()
    &&& (uri_at(b) >= 0 ==> valid_utf8(uri_rest(b).subrange(0, uri_at(b))))
    &&& host_text_ok(uri_host_text(b))
}

/// The URI that `u` holds is the one written in `b`.
pub open spec fn uri_read_from(u: SipUri, b: Seq<u8>) -> bool {
    &&& match u.user {
        Some(user) => uri_at(b) >= 0 && text(user@) == uri_rest(b).subrange(0, uri_at(b)),
        None => uri_at(b) < 0,
    }
    &&& host_read_from(u.host, uri_host_text(b))
}

impl SipHost {
    /// A host is well formed when its address is not empty and its port, if
    /// any, is not zero.
    pub open spec fn wf(&self) -> bool {
        &&& self.address@.len() > 0
        &&& self.port != Some(0u16)
    }

    /// Appends the canonical text of the host.
    pub fn write_to(&self, out: &mut Vec<u8>)
        ensures
            final(out)@ == old(out)@ + host_wire(*self),
    {
        push_text(out, &self.address);
        match self.port {
            Some(p) => {
                out.push(58u8);
                push_decimal(out, p as u64);
                assert(final(out)@ =~= old(out)@ + host_wire(*self));
            },
            None => {},
        }
    }

    /// The canonical text of the host.
    pub fn render(&self) -> (r: Vec<u8>)
        ensures
            r@ == host_wire(*self),
    {
        let mut out: Vec<u8> = Vec::new();
        self.write_to(&mut out);
        assert(out@ =~= host_wire(*self));
        out
    }

    /// Reads a host from its text.
    pub fn parse(b: &[u8]) -> (r: Result<SipHost, ParseError>)
        ensures
            r is Ok <==> host_text_ok(b@),
            r is Ok ==> host_read_from(r->Ok_0, b@),
            r is Err ==> r == Err::<SipHost, ParseError>(ParseError::InvalidUri),
    {
        proof {
            lemma_last_index(b@, 58u8);
        }
        let mut address_end: usize = b.len();
        let mut port: Option<u16> = None;
        match find_last(b, 58u8) {
            Some(i) => {
                if i + 1 < b.len() {
                    let digits = &b[i + 1..b.len()];
                    if all_digits_exec(digits) {
                        match parse_decimal(digits, 65535) {
                            Some(n) => {
                                if n == 0 {
                                    return Err(ParseError::InvalidUri);
                                }
                                port = Some(n as u16);
                            },
                            None => {
                                return Err(ParseError::InvalidUri);
                            },
                        }
                        address_end = i;
                    }
                }
            },
            None => {},
        }
        assert(port_value(port) == host_port_of(b@));
        if address_end == 0 {
            return Err(ParseError::InvalidUri);
        }
        let address_bytes = &b[0..address_end];
        assert(address_bytes@ =~= host_address_of(b@));
        match text_from(address_bytes) {
            Some(address) => Ok(SipHost { address, port }),
            None => Err(ParseError::InvalidUri),
        }
    }
}

/// Whether every byte of `s` is a decimal digit.
pub fn all_digits_exec(s: &[u8]) -> (r: bool)
    ensures
        r == all_digits(s@),
{
    let mut i: usize = 0;
    while i < s.len()
        invariant
            i <= s@.len(),
            forall|j: int| 0 <= j < i ==> crate::wire::is_digit(#[trigger] s@[j]),
        decreases s@.len() - i,
    {
        if s[i] < 48 || s[i] > 57 {
            return false;
        }
        i += 1;
    }
    true
}

impl SipUri {
    pub open spec fn wf(&self) -> bool {
        self.host.wf()
    }

    /// A URI without a user part.
    pub fn from_host(host: &str) -> (r: SipUri)
        ensures
            r.user is None,
            r.host.address@ == host@,
            r.host.port is None,
    {
        SipUri { user: None, host: SipHost { address: host.to_owned(), port: None } }
    }

    /// Appends the canonical text of the URI.
    pub fn write_to(&self, out: &mut Vec<u8>)
        ensures
            final(out)@ == old(out)@ + uri_wire(*self),
    {
        push_all(out, "sip:".as_bytes());
        proof {
            reveal_strlit("sip:");
            vstd::utf8::is_ascii_chars_encode_utf8("sip:"@);
            assert(text("sip:"@) =~= sip_scheme());
        }
        match &self.user {
            Some(user) => {
                push_text(out, user);
                out.push(64u8);
            },
            None => {},
        }
        self.host.write_to(out);
        assert(final(out)@ =~= old(out)@ + uri_wire(*self));
    }

    /// The canonical text of the URI.
    pub fn render(&self) -> (r: Vec<u8>)
        ensures
            r@ == uri_wire(*self),
    {
        let mut out: Vec<u8> = Vec::new();
        self.write_to(&mut out);
        assert(out@ =~= uri_wire(*self));
        out
    }

    /// Reads a URI from its text.
    pub fn parse(b: &[u8]) -> (r: Result<SipUri, ParseError>)
        ensures
            r is Ok <==> uri_text_ok(b@),
            r is Ok ==> uri_read_from(r->Ok_0, b@),
            r is Err ==> r == Err::<SipUri, ParseError>(ParseError::InvalidUri),
    {
        if b.len() < 4 || b[0] != 115u8 || b[1] != 105u8 || b[2] != 112u8 || b[3] != 58u8 {
            proof {
                if b@.len() >= 4 && b@.subrange(0, 4) == sip_scheme() {
                    assert(b@[0] == b@.subrange(0, 4)[0]);
                    assert(b@[1] == b@.subrange(0, 4)[1]);
                    assert(b@[2] == b@.subrange(0, 4)[2]);
                    assert(b@[3] == b@.subrange(0, 4)[3]);
                }
            }
            return Err(ParseError::InvalidUri);
        }
        assert(b@.subrange(0, 4) =~= sip_scheme());
        let rest = &b[4..b.len()];
        assert(rest@ =~= uri_rest(b@));
        proof {
            lemma_last_index(rest@, 64u8);
        }
        let (user, host_text) = match find_last(rest, 64u8) {
            Some(j) => {
                let user_bytes = &rest[0..j];
                match text_from(user_bytes) {
                    Some(u) => (Some(u), &rest[j + 1..rest.len()]),
                    None => {
                        return Err(ParseError::InvalidUri);
                    },
                }
            },
            None => (None, rest),
        };
        assert(host_text@ =~= uri_host_text(b@));
        match SipHost::parse(host_text) {
            Ok(host) => Ok(SipUri { user, host }),
            Err(e) => Err(e),
        }
    }
}

} // verus!
