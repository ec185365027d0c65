//! Text codec: enclosing a text payload under a pub/sub routing key whose
//! subject carries a bytes or string schema, and recovering the text.
//!
//! The payload travels as a timestamped message `{ 1: timestamp, 2: value }`
//! holding the UTF-8 bytes of the text, wrapped in an envelope; that inner
//! message has the same fixed wire shape as the envelope itself.

use vstd::prelude::*;
use vstd::string::StrSliceExecFns;
use vstd::string::StringExecFns;
use vstd::string::StringSliceAdditionalSpecFns;
use vstd::utf8::{decode_utf8, encode_utf8, valid_utf8};
use crate::envelope::{
    decode_envelope, encode_envelope, nanos_to_timestamp, spec_encode_envelope,
    spec_parse_envelope, spec_split_nanos,
};
use crate::error::Error;
use crate::keys::{get_subject_from_pubsub_key, spec_parse_pubsub_key};
use crate::subjects::{get_subject_schema, SubjectRegistry};

verus! {

/// The schemas whose payload is text carried as bytes.
pub open spec fn spec_text_schema(schema: Seq<char>) -> bool {
    schema == "keelson.TimestampedBytes"@ || schema == "keelson.TimestampedString"@
}

/// The bytes that enclosing a text at a given instant produces: the text's
/// UTF-8 bytes in a timestamped message, in an envelope.
pub open spec fn spec_enclose_text(at: i64, text: Seq<char>) -> Seq<u8> {
    spec_encode_envelope(
        Some(spec_split_nanos(at)),
        spec_encode_envelope(Some(spec_split_nanos(at)), encode_utf8(text)),
    )
}

/// Whether the key resolves, through the registry, to a subject whose
/// schema carries text.
pub open spec fn spec_text_subject(registry: Map<Seq<char>, Seq<char>>, key: Seq<char>) -> bool {
    &&& spec_parse_pubsub_key(key) matches Some(p) && registry.contains_key(p.2)
        && spec_text_schema(registry[p.2])
}

/// Resolve a key to its subject's schema and check that it carries text.
fn text_schema_of(registry: &SubjectRegistry, key: &str) -> (r: Result<(), Error>)
    requires
        registry.wf(),
    ensures
        match r {
            Ok(_) => spec_text_subject(registry@, key@),
            Err(e) => {
                &&& !spec_text_subject(registry@, key@)
                &&& match spec_parse_pubsub_key(key@) {
                    None => e is KeyParseError,
                    Some(p) => {
                        if !registry@.contains_key(p.2) {
                            e matches Error::UnknownSubject(s) && s@ == p.2
                        } else {
                            e is ReflectionError
                        }
                    },
                }
            },
        },
{
    let subject = match get_subject_from_pubsub_key(key) {
        Ok(s) => s,
        Err(e) => {
            return Err(e);
        },
    };
    let schema = match get_subject_schema(registry, subject.as_str()) {
        Some(schema) => schema,
        None => {
            return Err(Error::UnknownSubject(subject));
        },
    };
    let bytes_schema = String::from_str("keelson.TimestampedBytes");
    let string_schema = String::from_str("keelson.TimestampedString");
    if schema.eq(&bytes_schema) || schema.eq(&string_schema) {
        Ok(())
    } else {
        let mut m = String::new();
        m.append("subject '");
        m.append(subject.as_str());
        m.append("' does not carry a text payload");
        Err(Error::ReflectionError(m))
    }
}

/// Enclose a text under a routing key at a given instant. Succeeds exactly
/// when the key parses and its subject is registered with a text-carrying
/// schema.
pub fn enclose_from_text_at(
    registry: &SubjectRegistry,
    key: &str,
    text: &str,
    enclosed_at: i64,
) -> (r: Result<Vec<u8>, Error>)
    requires
        registry.wf(),
    ensures
        match r {
            Ok(b) => spec_text_subject(registry@, key@) && b@ == spec_enclose_text(
                enclosed_at,
                text@,
            ),
            Err(_) => !spec_text_subject(registry@, key@),
        },
{
    match text_schema_of(registry, key) {
        Ok(_) => {},
        Err(e) => {
            return Err(e);
        },
    }
    let ts = nanos_to_timestamp(enclosed_at);
    proof {
        crate::envelope::lemma_split_nanos(enclosed_at as int);
        assert((ts.seconds, ts.nanos) == spec_split_nanos(enclosed_at));
    }
    let inner = encode_envelope(&ts, text.as_bytes());
    let outer = encode_envelope(&ts, inner.as_slice());
    Ok(outer)
}

/// Enclose a text under a routing key, stamped with the current time.
pub fn enclose_from_text(registry: &SubjectRegistry, key: &str, text: &str) -> (r: Result<
    Vec<u8>,
    Error,
>)
    requires
        registry.wf(),
    ensures
        r matches Ok(b) ==> spec_text_subject(registry@, key@) && exists|t: i64|
            0 <= t && b@ == spec_enclose_text(t, text@),
        r matches Err(e) ==> !spec_text_subject(registry@, key@) || e is InvalidTimestamp,
{
    let at = match crate::envelope::current_time_nanos() {
        Ok(n) => n,
        Err(e) => {
            return Err(e);
        },
    };
    let r = enclose_from_text_at(registry, key, text, at);
    proof {
        if r is Ok {
            assert(0 <= at && r->Ok_0@ == spec_enclose_text(at, text@));
        }
    }
    r
}

/// Relies on `std::str::from_utf8`: the returned text views exactly the
/// given bytes, and the call succeeds exactly when the bytes are valid
/// UTF-8.
#[verifier::external_body]
fn bytes_to_str(v: &[u8]) -> (r: Result<&str, ()>)
    ensures
        r matches Ok(t) ==> t.spec_bytes() == v@ && valid_utf8(v@),
        r matches Err(_) ==> !valid_utf8(v@),
{
    match std::str::from_utf8(v) {
        Ok(t) => Ok(t),
        Err(_) => Err(()),
    }
}

fn text_payload_message() -> (r: String)
    ensures
        r@ == "payload is not a text message"@,
{
    let mut m = String::new();
    m.append("payload is not a text message");
    m
}

/// Recover the text enclosed under a routing key: unwrap the envelope,
/// unwrap the timestamped message inside it, and read its value bytes as
/// UTF-8.
pub fn uncover_to_text(registry: &SubjectRegistry, key: &str, message: &[u8]) -> (r: Result<
    String,
    Error,
>)
    requires
        registry.wf(),
    ensures
        match r {
            Ok(t) => {
                &&& spec_text_subject(registry@, key@)
                &&& spec_parse_envelope(message@) matches Some((_, inner))
                    && spec_parse_envelope(inner) matches Some((_, vb)) && valid_utf8(vb) && t@
                    == decode_utf8(vb)
            },
            Err(_) => !spec_text_subject(registry@, key@) || (match spec_parse_envelope(
                message@,
            ) {
                None => true,
                Some((_, inner)) => match spec_parse_envelope(inner) {
                    None => true,
                    Some((_, vb)) => !valid_utf8(vb),
                },
            }),
        },
{
    match text_schema_of(registry, key) {
        Ok(_) => {},
        Err(e) => {
            return Err(e);
        },
    }
    let outer = match decode_envelope(message) {
        Ok(env) => env,
        Err(e) => {
            return Err(e);
        },
    };
    let inner = match decode_envelope(outer.payload.as_slice()) {
        Ok(env) => env,
        Err(e) => {
            return Err(e);
        },
    };
    match bytes_to_str(inner.payload.as_slice()) {
        Ok(t) => {
            let text = t.to_owned();
            proof {
                vstd::utf8::encode_utf8_decode_utf8(t@);
            }
            Ok(text)
        },
        Err(_) => Err(Error::ReflectionError(text_payload_message())),
    }
}

/// Round trip: recovering the text from what enclosing produced gives the
/// text back, whatever the enclosure instant.
pub proof fn lemma_text_roundtrip(at: i64, text: Seq<char>)
    requires
        encode_utf8(text).len() + 64 < 0x1_0000_0000_0000_0000,
    ensures
        ({
            let b = spec_enclose_text(at, text);
            &&& spec_parse_envelope(b) matches Some((_, inner))
                && spec_parse_envelope(inner) matches Some((_, vb)) && valid_utf8(vb)
                && decode_utf8(vb) == text
        }),
{
    let vb = encode_utf8(text);
    let inner = spec_encode_envelope(Some(spec_split_nanos(at)), vb);
    crate::envelope::lemma_envelope_roundtrip(at, vb);
    crate::envelope::lemma_env_enc_len(spec_split_nanos(at), vb);
    crate::envelope::lemma_envelope_roundtrip(at, inner);
    vstd::utf8::encode_utf8_valid_utf8(text);
    vstd::utf8::encode_utf8_decode_utf8(text);
}

} // verus!
