//! Framing, checksums and the acknowledgment handshake of the GDB Remote
//! Serial Protocol, https://sourceware.org/gdb/onlinedocs/gdb/Remote-Protocol.html

use vstd::prelude::*;

pub mod hex;
pub mod io;
pub mod machine;
pub mod packet;
pub mod parser;
pub mod scan;

verus! {

/// `std::io::Error`: how a transport failed. Carried along, never looked into.
#[verifier::external_type_specification]
#[verifier::external_body]
pub struct ExIoError(std::io::Error);

/// `std::num::ParseIntError`: why a text is no number. Carried along, never
/// looked into.
#[verifier::external_type_specification]
#[verifier::external_body]
pub struct ExParseIntError(std::num::ParseIntError);

/// `std::str::Utf8Error`: why some bytes are no text. Carried along, never
/// looked into.
#[verifier::external_type_specification]
#[verifier::external_body]
pub struct ExUtf8Error(std::str::Utf8Error);

/// Everything that can go wrong in this crate.
#[derive(Debug)]
pub enum Error {
    /// The transport failed.
    IoError(std::io::Error),
    /// The checksum field is text, but not a hexadecimal number that fits a byte.
    NonNumber(String, std::num::ParseIntError),
    /// The checksum field is not UTF-8 text.
    NonUtf8(Vec<u8>, std::str::Utf8Error),
    /// A run-length marker with no byte before it to repeat, or with a count
    /// byte above the protocol's maximum.
    MalformedRepeat,
    /// The payload of one packet outgrew `machine::MAX_PAYLOAD_LEN`.
    PayloadTooLarge,
}

impl From<std::io::Error> for Error {
    fn from(err: std::io::Error) -> (error: Self) {
        Error::IoError(err)
    }
}

impl vstd::std_specs::convert::FromSpecImpl<std::io::Error> for Error {
    open spec fn obeys_from_spec() -> bool {
        true
    }

    open spec fn from_spec(err: std::io::Error) -> Self {
        Error::IoError(err)
    }
}

/// `format!` with the `Display` of an `std::io::Error`: the text that
/// reports a failure of the transport. Nothing is claimed of it.
#[verifier::external_body]
fn io_error_text(err: &std::io::Error) -> String {
    format!("i/o error: {}", err)
}

/// `format!` with the `Display` of an `std::num::ParseIntError`: the text that
/// reports a checksum field that is no number. Nothing is claimed of it.
#[verifier::external_body]
fn non_number_text(string: &String, err: &std::num::ParseIntError) -> String {
    format!("expected number, found {:?}: {}", string, err)
}

/// `format!` with the `Display` of an `std::str::Utf8Error`: the text that
/// reports a checksum field that is no text. Nothing is claimed of it.
#[verifier::external_body]
fn non_utf8_text(bytes: &Vec<u8>, err: &std::str::Utf8Error) -> String {
    format!("expected UTF-8 string in this context, found {:?}: {}", bytes, err)
}

impl Error {
    /// The error in words.
    pub fn message(&self) -> (text: String)
        ensures
            self is MalformedRepeat ==> text@ == "malformed run length"@,
            self is PayloadTooLarge ==> text@ == "payload too large"@,
    {
        match self {
            Error::IoError(err) => io_error_text(err),
            Error::NonNumber(string, err) => non_number_text(string, err),
            Error::NonUtf8(bytes, err) => non_utf8_text(bytes, err),
            Error::MalformedRepeat => "malformed run length".to_owned(),
            Error::PayloadTooLarge => "payload too large".to_owned(),
        }
    }
}

} // verus!
