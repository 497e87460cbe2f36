//! The database side of a write: credentials and the meaning of a
//! response status.

use vstd::prelude::*;

use crate::context::push_all;

verus! {

/// The character of a six-bit value in the standard base64 alphabet
/// (`A`-`Z`, `a`-`z`, `0`-`9`, `+`, `/`).
pub open spec fn base64_char(v: int) -> u8 {
    if v < 26 {
        (0x41 + v) as u8
    } else if v < 52 {
        (0x61 + v - 26) as u8
    } else if v < 62 {
        (0x30 + v - 52) as u8
    } else if v == 62 {
        0x2bu8
    } else {
        0x2fu8
    }
}

/// The standard, padded base64 text of a byte string: each group of three
/// bytes gives four characters of six bits each; a last group of one or
/// two bytes is filled with zero bits and padded with `=` to four.
pub open spec fn base64_text(b: Seq<u8>) -> Seq<u8>
    decreases b.len(),
{
    if b.len() == 0 {
        Seq::empty()
    } else {
        let x = b[0] as int;
        let y = if b.len() > 1 { b[1] as int } else { 0 };
        let z = if b.len() > 2 { b[2] as int } else { 0 };
        let c0 = base64_char(x / 4);
        let c1 = base64_char((x % 4) * 16 + y / 16);
        let c2 = base64_char((y % 16) * 4 + z / 64);
        let c3 = base64_char(z % 64);
        if b.len() == 1 {
            seq![c0, c1, 0x3du8, 0x3du8]
        } else if b.len() == 2 {
            seq![c0, c1, c2, 0x3du8]
        } else {
            seq![c0, c1, c2, c3] + base64_text(b.subrange(3, b.len() as int))
        }
    }
}

/// Relies on `base64::encode`, which writes the standard alphabet with
/// padding (`base64::STANDARD`): the base64 text of the bytes.
#[verifier::external_body]
fn base64_encode(bytes: &[u8]) -> (r: Vec<u8>)
    ensures
        r@ == base64_text(bytes@),
{
    base64::encode(bytes).into_bytes()
}

/// How a write authenticates.
#[derive(Clone, Debug)]
pub enum Auth {
    Anonymous,
    /// HTTP basic authentication.
    HTTP { username: Vec<u8>, password: Vec<u8> },
    /// Credentials as the query parameters `u` and `p`.
    Query { username: Vec<u8>, password: Vec<u8> },
}

/// `Basic ` and the encoded credentials.
pub open spec fn basic_header_text(encoded: Seq<u8>) -> Seq<u8> {
    seq![0x42u8, 0x61, 0x73, 0x69, 0x63, 0x20] + encoded
}

/// The value of an `Authorization` header for credentials already encoded
/// in base64.
pub fn basic_header_from(encoded: &[u8]) -> (r: Vec<u8>)
    ensures
        r@ == basic_header_text(encoded@),
{
    let mut r: Vec<u8> = vec![0x42u8, 0x61, 0x73, 0x69, 0x63, 0x20];
    push_all(&mut r, encoded);
    assert(r@ =~= basic_header_text(encoded@));
    r
}

impl Auth {
    /// The `Authorization` header value that the credentials ask for:
    /// `Basic ` and the base64 text of `username:password` for HTTP basic
    /// authentication, none otherwise.
    pub fn header_value(&self) -> (r: Option<Vec<u8>>)
        ensures
            match self {
                Auth::HTTP { username, password } => r.is_some() && r.unwrap()@
                    == basic_header_text(base64_text(username@ + seq![0x3au8] + password@)),
                _ => r.is_none(),
            },
    {
        match self {
            Auth::HTTP { username, password } => {
                let mut plain: Vec<u8> = Vec::new();
                push_all(&mut plain, username.as_slice());
                plain.push(0x3au8);
                push_all(&mut plain, password.as_slice());
                assert(plain@ =~= username@ + seq![0x3au8] + password@);
                let encoded = base64_encode(plain.as_slice());
                Some(basic_header_from(encoded.as_slice()))
            },
            _ => None,
        }
    }
}

/// Why a write failed, by the response status.
#[derive(Clone, Copy, Debug, PartialEq, Eq, Structural)]
pub enum WriteError {
    /// 401 or 403.
    PermissionError,
    /// 400 or 413.
    DataError,
    /// 404.
    DatabaseNotFound,
    /// A status below 400 other than 204.
    UnexpectedSuccessStatus,
    /// Any other failure status, with its code.
    Status(u16),
}

/// What a response status means for a write: 204 is success, any other
/// status below 400 (which the transport does not treat as a failure) is an
/// unexpected success, and failures map to their kinds.
pub open spec fn status_meaning(code: u16) -> Result<(), WriteError> {
    if code == 204 {
        Ok(())
    } else if code < 400 {
        Err(WriteError::UnexpectedSuccessStatus)
    } else if code == 401 || code == 403 {
        Err(WriteError::PermissionError)
    } else if code == 400 || code == 413 {
        Err(WriteError::DataError)
    } else if code == 404 {
        Err(WriteError::DatabaseNotFound)
    } else {
        Err(WriteError::Status(code))
    }
}

pub fn check_status(code: u16) -> (r: Result<(), WriteError>)
    ensures
        r == status_meaning(code),
{
    if code == 204 {
        Ok(())
    } else if code < 400 {
        Err(WriteError::UnexpectedSuccessStatus)
    } else if code == 401 || code == 403 {
        Err(WriteError::PermissionError)
    } else if code == 400 || code == 413 {
        Err(WriteError::DataError)
    } else if code == 404 {
        Err(WriteError::DatabaseNotFound)
    } else {
        Err(WriteError::Status(code))
    }
}

} // verus!
