//! Keelson: a thin messaging protocol layer for exchanging timestamped,
//! typed payloads over a publish/subscribe transport.
//!
//! The crate has four coupled pieces:
//! - the envelope codec, which wraps payload bytes together with an
//!   enclosure timestamp in a fixed binary wire schema;
//! - key addressing, which builds and parses the hierarchical routing keys
//!   used for pub/sub and request/reply interactions;
//! - the subject registry, which maps subject names to protobuf type names;
//! - the reflection decoder, which decodes payload bytes into a structurally
//!   inspectable message given only a fully-qualified type name.

use vstd::prelude::*;

pub mod codec;
pub mod envelope;
pub mod error;
pub mod keys;
pub mod reflection;
pub mod subjects;
pub mod wire;

pub use envelope::{enclose, uncover, Envelope, WireTimestamp};
pub use error::Error;
pub use keys::{
    construct_pubsub_key, construct_rpc_key, get_subject_from_pubsub_key, parse_pubsub_key,
    parse_rpc_key, PubsubKeyParts, RpcKeyParts,
};
pub use reflection::{
    decode_payload_from_type_name, get_file_descriptor_set_from_type_name,
    get_message_descriptor_from_type_name, DescriptorPool, DynamicMessage,
};
pub use subjects::{
    get_all_subjects, get_subject_schema, is_subject_well_known, load_bundled_subjects,
    load_subjects_from_str, SubjectRegistry,
};

verus! {

/// Sum of two machine-word counters.
pub fn add(left: usize, right: usize) -> (r: usize)
    requires
        left + right <= usize::MAX,
    ensures
        r == left + right,
{
    left + right
}

} // verus!
