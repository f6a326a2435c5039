//! Files that the command line names: what their bytes hold, and when they are
//! of no use.

use crate::error::is_invalid_config;
use crate::error::{invalid_config, Error};
use crate::text::{join2, join3};
use vstd::prelude::*;

verus! {

/// A JSON value of `serde_json`, carried through as it is.
#[verifier::external_type_specification]
#[verifier::external_body]
pub struct ExJsonValue(serde_json::Value);

/// Certificates or a reason, with lists and texts as sequences.
pub open spec fn certificates_view(parsed: Result<Vec<Vec<u8>>, String>) -> Result<
    Seq<Seq<u8>>,
    Seq<char>,
> {
    match parsed {
        Ok(list) => Ok(list@.map_values(|bytes: Vec<u8>| bytes@)),
        Err(reason) => Err(reason@),
    }
}

/// The certificates in the PEM sections of a file, each in DER, or in words why
/// its sections cannot be read.
pub uninterp spec fn pem_certificates(bytes: Seq<u8>) -> Result<Seq<Seq<u8>>, Seq<char>>;

/// `rustls_pemfile::certs` reads the certificates of a PEM file one by one, and
/// skips sections of other kinds. Here they are collected up to the first that
/// cannot be read.
#[verifier::external_body]
fn parse_pem(bytes: &[u8]) -> (result: Result<Vec<Vec<u8>>, String>)
    ensures
        certificates_view(result) == pem_certificates(bytes@),
{
    let mut rest = bytes;
    rustls_pemfile::certs(&mut rest)
        .map(|found| found.map(|certificate| certificate.to_vec()))
        .collect::<Result<Vec<_>, _>>()
        .map_err(|error| error.to_string())
}

/// The message on a file of CA certificates that is of no use.
pub open spec fn ca_file_error(
    shown: Seq<char>,
    parsed: Result<Seq<Seq<u8>>, Seq<char>>,
) -> Option<Seq<char>> {
    match parsed {
        Err(reason) => Some("cannot parse CA file "@ + shown + (": "@ + reason)),
        Ok(list) => if list.len() == 0 {
            Some("CA file "@ + shown + " contains no certificates"@)
        } else {
            None
        },
    }
}

/// The certificates of a CA file that a PEM parser read, where there are any.
pub fn accept_certificates(shown: &str, parsed: Result<Vec<Vec<u8>>, String>) -> (result: Result<
    Vec<Vec<u8>>,
    Error,
>)
    ensures
        match result {
            Ok(list) => {
                &&& ca_file_error(shown@, certificates_view(parsed)) is None
                &&& parsed == Ok::<Vec<Vec<u8>>, String>(list)
            },
            Err(error) => ca_file_error(shown@, certificates_view(parsed)) matches Some(message)
                && is_invalid_config(error, message),
        },
{
    match parsed {
        Err(reason) => {
            let tail = join2(": ", &reason);
            Err(Error::InvalidConfig(join3("cannot parse CA file ", shown, &tail)))
        },
        Ok(list) => if list.len() == 0 {
            Err(Error::InvalidConfig(join3("CA file ", shown, " contains no certificates")))
        } else {
            Ok(list)
        },
    }
}

/// The certificates that the bytes of a CA file hold. The file is shown by its
/// path in messages.
pub fn ca_certificates(shown: &str, bytes: &[u8]) -> (result: Result<Vec<Vec<u8>>, Error>)
    ensures
        match result {
            Ok(list) => {
                &&& ca_file_error(shown@, pem_certificates(bytes@)) is None
                &&& pem_certificates(bytes@) == Ok::<Seq<Seq<u8>>, Seq<char>>(
                    list@.map_values(|certificate: Vec<u8>| certificate@),
                )
            },
            Err(error) => ca_file_error(shown@, pem_certificates(bytes@)) matches Some(message)
                && is_invalid_config(error, message),
        },
{
    accept_certificates(shown, parse_pem(bytes))
}

/// Refuses to trust nothing: neither a root of the host nor a given one.
pub fn check_roots(native: usize, custom: usize) -> (result: Result<(), Error>)
    ensures
        match result {
            Ok(_) => native != 0 || custom != 0,
            Err(error) => native == 0 && custom == 0 && is_invalid_config(
                error,
                "no usable TLS root certificates were loaded"@,
            ),
        },
{
    if native == 0 && custom == 0 {
        return Err(invalid_config("no usable TLS root certificates were loaded"));
    }
    Ok(())
}

/// A list of JSON values, no list, or a reason, with lists and texts as
/// sequences.
pub open spec fn json_view(parsed: Result<Option<Vec<serde_json::Value>>, String>) -> Result<
    Option<Seq<serde_json::Value>>,
    Seq<char>,
> {
    match parsed {
        Ok(Some(list)) => Ok(Some(list@)),
        Ok(None) => Ok(None),
        Err(reason) => Err(reason@),
    }
}

/// The items of the JSON array that a file holds, nothing where it holds another
/// JSON value, or in words why it holds none.
pub uninterp spec fn json_array(bytes: Seq<u8>) -> Result<
    Option<Seq<serde_json::Value>>,
    Seq<char>,
>;

/// `serde_json::from_slice` reads a JSON value. An array is handed out by its
/// items.
#[verifier::external_body]
fn parse_json_array(bytes: &[u8]) -> (result: Result<Option<Vec<serde_json::Value>>, String>)
    ensures
        json_view(result) == json_array(bytes@),
{
    match serde_json::from_slice::<serde_json::Value>(bytes) {
        Ok(serde_json::Value::Array(items)) => Ok(Some(items)),
        Ok(_) => Ok(None),
        Err(error) => Err(error.to_string()),
    }
}

/// The message on a file of posture results that is of no use.
pub open spec fn posture_file_error(
    shown: Seq<char>,
    parsed: Result<Option<Seq<serde_json::Value>>, Seq<char>>,
) -> Option<Seq<char>> {
    match parsed {
        Err(reason) => Some(shown + ": "@ + reason),
        Ok(None) => Some(shown + ": expected a JSON array"@),
        Ok(Some(_)) => None,
    }
}

/// The posture results of a file that a JSON parser read, where it holds a list.
pub fn accept_posture_results(
    shown: &str,
    parsed: Result<Option<Vec<serde_json::Value>>, String>,
) -> (result: Result<Vec<serde_json::Value>, Error>)
    ensures
        match result {
            Ok(list) => {
                &&& posture_file_error(shown@, json_view(parsed)) is None
                &&& parsed == Ok::<Option<Vec<serde_json::Value>>, String>(Some(list))
            },
            Err(error) => posture_file_error(shown@, json_view(parsed)) matches Some(message)
                && is_invalid_config(error, message),
        },
{
    match parsed {
        Err(reason) => Err(Error::InvalidConfig(join3(shown, ": ", &reason))),
        Ok(None) => Err(Error::InvalidConfig(join2(shown, ": expected a JSON array"))),
        Ok(Some(list)) => Ok(list),
    }
}

/// The posture results that the bytes of a file hold. The file is shown by its
/// path in messages.
pub fn posture_results(shown: &str, bytes: &[u8]) -> (result: Result<
    Vec<serde_json::Value>,
    Error,
>)
    ensures
        match result {
            Ok(list) => json_array(bytes@) == Ok::<Option<Seq<serde_json::Value>>, Seq<char>>(
                Some(list@),
            ),
            Err(error) => posture_file_error(shown@, json_array(bytes@)) matches Some(message)
                && is_invalid_config(error, message),
        },
{
    accept_posture_results(shown, parse_json_array(bytes))
}

/// A file of certificates is of use where it can be read and holds one at least; and
/// the certificates are handed on as they are.
pub proof fn law_certificate_file(
    shown: &str,
    parsed: Result<Vec<Vec<u8>>, String>,
    result: Result<Vec<Vec<u8>>, Error>,
    native: usize,
    custom: usize,
    roots: Result<(), Error>,
)
    requires
        call_ensures(accept_certificates, (shown, parsed), result),
        call_ensures(check_roots, (native, custom), roots),
    ensures
        result is Ok <==> (parsed matches Ok(list) && list@.len() > 0),
        result matches Ok(list) ==> parsed == Ok::<Vec<Vec<u8>>, String>(list),
        roots is Ok <==> native + custom > 0,
{
}

/// Posture results are a JSON array, and its items are handed on as they are.
pub proof fn law_posture_file(
    shown: &str,
    parsed: Result<Option<Vec<serde_json::Value>>, String>,
    result: Result<Vec<serde_json::Value>, Error>,
)
    requires
        call_ensures(accept_posture_results, (shown, parsed), result),
    ensures
        result is Ok <==> (parsed matches Ok(Some(_))),
        result matches Ok(list) ==> parsed == Ok::<Option<Vec<serde_json::Value>>, String>(
            Some(list),
        ),
{
}

} // verus!
