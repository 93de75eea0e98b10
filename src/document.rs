use vstd::prelude::*;

verus! {

#[verifier::external_type_specification]
#[verifier::external_body]
pub struct ExJsonValue(serde_json::Value);

#[verifier::external_type_specification]
#[verifier::external_body]
pub struct ExJsonError(serde_json::Error);

/// The document that a byte payload holds, as the JSON parser reads it:
/// `None` where the bytes are not one well-formed JSON document.
pub uninterp spec fn json_of(payload: Seq<u8>) -> Option<serde_json::Value>;

/// Relies on `serde_json::from_slice::<serde_json::Value>`: it parses the whole
/// slice as one JSON document (trailing non-whitespace is an error), its result
/// depends on the bytes alone, and an empty slice ends in an end-of-input error.
#[verifier::external_body]
fn parse_json(payload: &[u8]) -> (r: Result<serde_json::Value, serde_json::Error>)
    ensures
        match r {
            Ok(v) => json_of(payload@) == Some(v),
            Err(_) => json_of(payload@) is None,
        },
        payload@.len() == 0 ==> r is Err,
{
    serde_json::from_slice::<serde_json::Value>(payload)
}

/// Why a connection produced no document.
#[derive(Debug)]
pub enum IngestError {
    /// The connection could not be read to its end; the text describes the failure.
    Read(String),
    /// The bytes read were not one well-formed document.
    Parse(serde_json::Error),
}

/// What a connection yields: its decoded document, or the reason there is none.
#[derive(Debug)]
pub enum IngestOutcome {
    /// The bytes formed this document.
    Decoded(serde_json::Value),
    /// No document could be had.
    Failed(IngestError),
}

/// `r` is the report owed for a connection whose complete payload was `payload`.
pub open spec fn decodes_to(payload: Seq<u8>, r: IngestOutcome) -> bool {
    match json_of(payload) {
        Some(v) => r == IngestOutcome::Decoded(v),
        None => r matches IngestOutcome::Failed(IngestError::Parse(_)),
    }
}

/// Decodes the complete payload of one connection.
/// An empty payload is no document.
pub fn decode_payload(payload: &[u8]) -> (r: IngestOutcome)
    ensures
        decodes_to(payload@, r),
        payload@.len() == 0 ==> r matches IngestOutcome::Failed(IngestError::Parse(_)),
{
    match parse_json(payload) {
        Ok(v) => IngestOutcome::Decoded(v),
        Err(e) => IngestOutcome::Failed(IngestError::Parse(e)),
    }
}

} // verus!
