//! The storage envelope of persisted operations: a format discriminator around the
//! operation's JSON, independent of the operation's own domain format version.

use vstd::prelude::*;
use vstd::string::StringExecFns;
use crate::operation::PERSISTED_ENVELOPE_VERSION;

verus! {

/// The text before the payload in a current envelope.
pub open spec fn envelope_head() -> Seq<char> {
    "{\"format_version\":2,\"payload\":"@
}

/// Wraps an operation's JSON in the current storage envelope:
/// `{"format_version":2,"payload":<payload>}`.
pub fn encode_persisted_envelope(payload_json: &str) -> (r: String)
    ensures
        r@ == envelope_head() + payload_json@ + "}"@,
{
    let mut r = String::from_str("{\"format_version\":2,\"payload\":");
    r.append(payload_json);
    r.append("}");
    r
}

/// A stored envelope as read: tagged with a storage version, or a legacy bare payload.
pub enum PersistedEnvelope<T> {
    Versioned { format_version: u32, payload: T },
    Legacy(T),
}

/// Why a stored envelope could not be opened.
#[derive(Debug, Clone, Copy, PartialEq, Eq, Structural)]
pub enum EnvelopeError {
    UnsupportedVersion(u32),
}

/// The payload of a current or legacy envelope; an envelope of any other storage version
/// is refused.
pub fn decode_persisted_envelope<T>(envelope: PersistedEnvelope<T>) -> (r: Result<T, EnvelopeError>)
    ensures
        r == match envelope {
            PersistedEnvelope::Versioned { format_version, payload } => if format_version
                == PERSISTED_ENVELOPE_VERSION {
                Ok(payload)
            } else {
                Err(EnvelopeError::UnsupportedVersion(format_version))
            },
            PersistedEnvelope::Legacy(payload) => Ok(payload),
        },
{
    match envelope {
        PersistedEnvelope::Versioned { format_version, payload } => {
            if format_version == PERSISTED_ENVELOPE_VERSION {
                Ok(payload)
            } else {
                Err(EnvelopeError::UnsupportedVersion(format_version))
            }
        },
        PersistedEnvelope::Legacy(payload) => Ok(payload),
    }
}

} // verus!
