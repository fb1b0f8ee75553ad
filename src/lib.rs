//! Typed SIP messages and their wire codec: requests and responses are
//! rendered to bytes and parsed back, with both directions verified against
//! one byte-level model of the message grammar.

pub mod wire;
pub mod token;
pub mod laws;
pub mod address;
pub mod header;
pub mod message;

pub use address::{SipHost, SipUri};
pub use header::{
    CSeq, CallId, Contact, ContentLength, From, Header, MaxForwards, RawHeader, To, UserAgent, Via,
};
pub use message::{Message, Request, Response};
pub use token::{Method, ParseError, SipVersion};
