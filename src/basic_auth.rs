//! HTTP Basic authentication: reading the credentials of an
//! `Authorization` header and checking them.
use crate::authenticator::{split_once, split_once_at, Authenticator};
use base64::Engine;
use vstd::prelude::*;
use vstd::utf8::{decode_utf8, valid_utf8};

verus! {

/// The bytes that standard base64 (with padding) decodes `s` to, or `None`
/// where `s` is no such encoding.
pub uninterp spec fn base64_decoded(s: Seq<char>) -> Option<Seq<u8>>;

/// Relies on base64's `STANDARD.decode`: the bytes that the text encodes,
/// or an error; the outcome depends on the text alone.
#[verifier::external_body]
fn decode_base64(s: &str) -> (r: Option<Vec<u8>>)
    ensures
        r is Some <==> base64_decoded(s@) is Some,
        r is Some ==> r->Some_0@ == base64_decoded(s@)->Some_0,
{
    base64::engine::general_purpose::STANDARD.decode(s).ok()
}

/// Relies on `String::from_utf8`: the text that valid UTF-8 bytes encode,
/// and an error for any other bytes.
#[verifier::external_body]
fn utf8_text(bytes: Vec<u8>) -> (r: Option<String>)
    ensures
        r is Some <==> valid_utf8(bytes@),
        r is Some ==> r->Some_0@ == decode_utf8(bytes@),
{
    String::from_utf8(bytes).ok()
}

/// The part of a header value after the `Basic ` scheme.
pub open spec fn basic_payload(h: Seq<char>) -> Option<Seq<char>> {
    if h.len() >= 6 && h.subrange(0, 6) == "Basic "@ {
        Some(h.subrange(6, h.len() as int))
    } else {
        None
    }
}

/// The user and password in decoded credentials: UTF-8 text split at its
/// first `:`.
pub open spec fn credentials_in(bytes: Seq<u8>) -> Option<(Seq<char>, Seq<char>)> {
    if valid_utf8(bytes) {
        split_once(decode_utf8(bytes), ':')
    } else {
        None
    }
}

/// The user and password that a header value carries.
pub open spec fn header_credentials(h: Seq<char>) -> Option<(Seq<char>, Seq<char>)> {
    match basic_payload(h) {
        Some(p) => match base64_decoded(p) {
            Some(bytes) => credentials_in(bytes),
            None => None,
        },
        None => None,
    }
}

/// The user and password in decoded `user:password` bytes.
pub fn credentials_from_bytes(bytes: Vec<u8>) -> (r: Option<(String, String)>)
    ensures
        r is Some <==> credentials_in(bytes@) is Some,
        r is Some ==> r->Some_0.0@ == credentials_in(bytes@)->Some_0.0 && r->Some_0.1@
            == credentials_in(bytes@)->Some_0.1,
{
    match utf8_text(bytes) {
        Some(text) => split_once_at(text.as_str(), ':'),
        None => None,
    }
}

/// The user and password of an `Authorization` header value of the form
/// `Basic <base64 of user:password>`.
pub fn basic_credentials(header: &str) -> (r: Option<(String, String)>)
    ensures
        r is Some <==> header_credentials(header@) is Some,
        r is Some ==> r->Some_0.0@ == header_credentials(header@)->Some_0.0 && r->Some_0.1@
            == header_credentials(header@)->Some_0.1,
{
    proof {
        reveal_strlit("Basic ");
    }
    let n = header.unicode_len();
    if n < 6 {
        return None;
    }
    let scheme = header.substring_char(0, 6);
    if !(String::from_str(scheme) == String::from_str("Basic ")) {
        return None;
    }
    let payload = header.substring_char(6, n);
    match decode_base64(payload) {
        Some(bytes) => credentials_from_bytes(bytes),
        None => None,
    }
}

/// Whether a request with the `Authorization` header value `header` (if
/// any) is let through: only with Basic credentials that `auth` accepts.
pub fn is_authorized<A: Authenticator>(auth: &A, header: Option<&str>) -> (r: bool)
    ensures
        r == (header matches Some(h) && header_credentials(h@) matches Some(c) && auth.accepts(
            c.0,
            c.1,
        )),
{
    match header {
        Some(h) => match basic_credentials(h) {
            Some((user, password)) => auth.authenticate(user.as_str(), password.as_str()),
            None => false,
        },
        None => false,
    }
}

} // verus!
