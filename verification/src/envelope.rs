//! Reading a complete ISO 20022 *business message* (Business Application Header
//! + message Document) in one call.

use vstd::prelude::*;
use crate::app_hdr::{BusinessHeader, BusinessHeaderV, opt_header, parse_business_header, spec_parse_header};
use crate::metadata::{MessageMetadata, MessageMetadataV, extract, spec_extract};
use crate::mx_id::{MxId, MxIdV};
use crate::mx_message::{detect, opt_view, spec_detect};

verus! {

/// A parsed business message: its optional header, the detected message type,
/// and extracted business metadata.
#[derive(Debug, Clone, Default, PartialEq, Eq)]
pub struct BusinessMessage {
    /// The Business Application Header, if an `<AppHdr>` is present.
    pub header: Option<BusinessHeader>,
    /// The detected message identification (from the `Document` namespace).
    pub id: Option<MxId>,
    /// Business metadata read from the message.
    pub metadata: MessageMetadata,
}

/// Read a business message (header + document) from XML.
pub fn read_business_message(xml: &str) -> (r: BusinessMessage)
    ensures
        opt_header(r.header) == spec_parse_header(xml@),
        opt_view(r.id) == spec_detect(xml@),
        r.metadata@ == spec_extract(xml@),
{
    BusinessMessage { header: parse_business_header(xml), id: detect(xml), metadata: extract(xml) }
}

} // verus!
