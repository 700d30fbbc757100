//! ISO 20022 (MX) message identification, catalogue lookup and model-free
//! readers for Business Application Headers, business metadata and generic
//! message trees.
//!
//! The core is [`MxId`] (a message identifier such as `pacs.008.001.08`) and
//! [`BusinessArea`]; [`detect`] finds the message type of a document,
//! [`app_hdr`] reads and writes Business Application Headers, [`metadata`]
//! extracts business fields, [`MxNode`] is a generic element tree, and
//! [`catalogue`] lists known message versions.

pub mod text;
pub mod xml_scan;
pub mod scan_laws;
pub mod error;
pub mod message;
pub mod business_area;
pub mod mx_id;
pub mod mx_message;
pub mod app_hdr;
pub mod metadata;
pub mod envelope;
pub mod catalogue;
pub mod node;
pub mod validate;
pub mod fetch;
pub mod convert;
pub mod wasm;
pub mod cli;

pub use crate::business_area::BusinessArea;
pub use crate::envelope::{BusinessMessage, read_business_message};
pub use crate::error::Error;
pub use crate::message::strip_unknown;
pub use crate::mx_id::MxId;
pub use crate::mx_message::{check_message_type, detect, parse_as, MxMessage};
pub use crate::node::MxNode;

use vstd::prelude::*;
use crate::mx_id::spec_parse;

verus! {

/// Parse an [`MxId`] from a full namespace, partial namespace or bare message
/// name. Returns `None` if it cannot be parsed.
pub fn from_namespace(namespace: &str) -> (r: Option<MxId>)
    ensures
        match spec_parse(namespace@) {
            Ok(id) => r matches Some(x) && x@ == id,
            Err(_) => r is None,
        },
{
    match MxId::parse(namespace) {
        Ok(id) => Some(id),
        Err(_) => None,
    }
}

} // verus!
