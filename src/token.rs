//! The closed vocabularies of request methods and protocol versions, and the
//! errors of the parser.

use vstd::prelude::*;
use crate::wire::{bytes_eq, push_all, text};

verus! {

/// Why a byte string is not a SIP message or a part of one.
#[derive(Debug, Clone, Copy, PartialEq, Eq, Structural)]
pub enum ParseError {
    InvalidMethod,
    InvalidSipVersion,
    InvalidUri,
    MalformedStartLine,
    UnrecognizedStartLine,
    MalformedHeaderLine,
    TruncatedBody,
}

#[derive(Debug, Clone, Copy, PartialEq, Eq, Structural)]
pub enum Method {
    Register,
    Invite,
    Ack,
    Cancel,
    Buy,
    Options,
}

pub open spec fn method_name(m: Method) -> Seq<char> {
    match m {
        Method::Register => "REGISTER"@,
        Method::Invite => "INVITE"@,
        Method::Ack => "ACK"@,
        Method::Cancel => "CANCEL"@,
        Method::Buy => "BUY"@,
        Method::Options => "OPTIONS"@,
    }
}

/// The wire token of a method.
pub open spec fn method_token(m: Method) -> Seq<u8> {
    text(method_name(m))
}

/// The method whose token is `b`, if any: an exact, case-sensitive match.
pub open spec fn method_from(b: Seq<u8>) -> Result<Method, ParseError> {
    if b == method_token(Method::Register) {
        Ok(Method::Register)
    } else if b == method_token(Method::Invite) {
        Ok(Method::Invite)
    } else if b == method_token(Method::Ack) {
        Ok(Method::Ack)
    } else if b == method_token(Method::Cancel) {
        Ok(Method::Cancel)
    } else if b == method_token(Method::Buy) {
        Ok(Method::Buy)
    } else if b == method_token(Method::Options) {
        Ok(Method::Options)
    } else {
        Err(ParseError::InvalidMethod)
    }
}

impl Method {
    pub fn as_str(&self) -> (r: &'static str)
        ensures
            r@ == method_name(*self),
    {
        match self {
            Method::Register => "REGISTER",
            Method::Invite => "INVITE",
            Method::Ack => "ACK",
            Method::Cancel => "CANCEL",
            Method::Buy => "BUY",
            Method::Options => "OPTIONS",
        }
    }

    /// Appends the wire token of the method.
    pub fn write_to(&self, out: &mut Vec<u8>)
        ensures
            final(out)@ == old(out)@ + method_token(*self),
    {
        push_all(out, self.as_str().as_bytes());
    }

    /// The wire token of the method.
    pub fn to_wire(&self) -> (r: Vec<u8>)
        ensures
            r@ == method_token(*self),
    {
        let mut out: Vec<u8> = Vec::new();
        self.write_to(&mut out);
        assert(out@ =~= method_token(*self));
        out
    }

    /// Reads a method token; no case folding and no trimming.
    pub fn from_wire(b: &[u8]) -> (r: Result<Method, ParseError>)
        ensures
            r == method_from(b@),
    {
        if bytes_eq(b, "REGISTER".as_bytes()) {
            Ok(Method::Register)
        } else if bytes_eq(b, "INVITE".as_bytes()) {
            Ok(Method::Invite)
        } else if bytes_eq(b, "ACK".as_bytes()) {
            Ok(Method::Ack)
        } else if bytes_eq(b, "CANCEL".as_bytes()) {
            Ok(Method::Cancel)
        } else if bytes_eq(b, "BUY".as_bytes()) {
            Ok(Method::Buy)
        } else if bytes_eq(b, "OPTIONS".as_bytes()) {
            Ok(Method::Options)
        } else {
            Err(ParseError::InvalidMethod)
        }
    }
}

#[derive(Debug, Clone, Copy, PartialEq, Eq, Structural)]
pub enum SipVersion {
    Sip,
    Sip2,
}

pub open spec fn version_name(v: SipVersion) -> Seq<char> {
    match v {
        SipVersion::Sip => "SIP"@,
        SipVersion::Sip2 => "SIP/2.0"@,
    }
}

/// The wire token of a protocol version.
pub open spec fn version_token(v: SipVersion) -> Seq<u8> {
    text(version_name(v))
}

/// The version whose token is `b`, if any: an exact, case-sensitive match.
pub open spec fn version_from(b: Seq<u8>) -> Result<SipVersion, ParseError> {
    if b == version_token(SipVersion::Sip) {
        Ok(SipVersion::Sip)
    } else if b == version_token(SipVersion::Sip2) {
        Ok(SipVersion::Sip2)
    } else {
        Err(ParseError::InvalidSipVersion)
    }
}

impl SipVersion {
    pub fn as_str(&self) -> (r: &'static str)
        ensures
            r@ == version_name(*self),
    {
        match self {
            SipVersion::Sip => "SIP",
            SipVersion::Sip2 => "SIP/2.0",
        }
    }

    /// Appends the wire token of the version.
    pub fn write_to(&self, out: &mut Vec<u8>)
        ensures
            final(out)@ == old(out)@ + version_token(*self),
    {
        push_all(out, self.as_str().as_bytes());
    }

    /// The wire token of the version.
    pub fn to_wire(&self) -> (r: Vec<u8>)
        ensures
            r@ == version_token(*self),
    {
        let mut out: Vec<u8> = Vec::new();
        self.write_to(&mut out);
        assert(out@ =~= version_token(*self));
        out
    }

    /// Reads a version token; no case folding and no trimming.
    pub fn from_wire(b: &[u8]) -> (r: Result<SipVersion, ParseError>)
        ensures
            r == version_from(b@),
    {
        if bytes_eq(b, "SIP".as_bytes()) {
            Ok(SipVersion::Sip)
        } else if bytes_eq(b, "SIP/2.0".as_bytes()) {
            Ok(SipVersion::Sip2)
        } else {
            Err(ParseError::InvalidSipVersion)
        }
    }
}

} // verus!
