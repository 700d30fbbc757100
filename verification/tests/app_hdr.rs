use rust_iso20022::app_hdr::{parse_business_header, BusinessHeader};
use rust_iso20022::xml_scan::element_inner_str;

const MSG: &str = r#"<?xml version="1.0" encoding="UTF-8"?>
<Envelope>
  <AppHdr xmlns="urn:iso:std:iso:20022:tech:xsd:head.001.001.02">
    <Fr><FIId><FinInstnId><BICFI>BANKBEBB</BICFI></FinInstnId></FIId></Fr>
    <To><FIId><FinInstnId><BICFI>BANKDEFF</BICFI></FinInstnId></FIId></To>
    <BizMsgIdr>MSG-12345</BizMsgIdr>
    <MsgDefIdr>pacs.008.001.08</MsgDefIdr>
    <CreDt>2026-06-25T10:30:00Z</CreDt>
  </AppHdr>
  <Document xmlns="urn:iso:std:iso:20022:tech:xsd:pacs.008.001.08">
    <FIToFICstmrCdtTrf><GrpHdr><CreDt>2099-01-01T00:00:00Z</CreDt></GrpHdr></FIToFICstmrCdtTrf>
  </Document>
</Envelope>"#;

#[test]
fn reads_header_fields() {
    let h = parse_business_header(MSG).expect("header");
    assert_eq!(h.from.as_deref(), Some("BANKBEBB"));
    assert_eq!(h.to.as_deref(), Some("BANKDEFF"));
    assert_eq!(h.biz_msg_idr.as_deref(), Some("MSG-12345"));
    assert_eq!(h.msg_def_idr.as_deref(), Some("pacs.008.001.08"));
    // CreDt must come from the AppHdr, not the Document's GrpHdr.
    assert_eq!(h.cre_dt.as_deref(), Some("2026-06-25T10:30:00Z"));
}

#[test]
fn header_and_document_detect_independently() {
    let id = rust_iso20022::detect(MSG).unwrap();
    assert_eq!(id.message_name(), "pacs.008.001.08");
}

#[test]
fn none_when_absent() {
    assert!(parse_business_header("<Document><Foo>x</Foo></Document>").is_none());
}

fn sample_header() -> BusinessHeader {
    BusinessHeader {
        from: Some("BANKBEBB".to_string()),
        to: Some("BANKDEFF".to_string()),
        biz_msg_idr: Some("MSG-1".to_string()),
        msg_def_idr: Some("pacs.008.001.08".to_string()),
        cre_dt: Some("2026-06-25T10:30:00Z".to_string()),
    }
}

#[test]
fn writes_app_hdr_xml() {
    let xml = sample_header().to_app_hdr_xml();
    assert_eq!(
        xml,
        "<AppHdr xmlns=\"urn:iso:std:iso:20022:tech:xsd:head.001.001.02\">\
<Fr><FIId><FinInstnId><BICFI>BANKBEBB</BICFI></FinInstnId></FIId></Fr>\
<To><FIId><FinInstnId><BICFI>BANKDEFF</BICFI></FinInstnId></FIId></To>\
<BizMsgIdr>MSG-1</BizMsgIdr><MsgDefIdr>pacs.008.001.08</MsgDefIdr>\
<CreDt>2026-06-25T10:30:00Z</CreDt></AppHdr>"
    );
}

#[test]
fn written_header_reads_back() {
    let h = sample_header();
    let back = parse_business_header(&h.to_app_hdr_xml()).expect("header");
    assert_eq!(back, h);
    let ns = "urn:iso:std:iso:20022:tech:xsd:head.001.001.03";
    let xml = h.to_app_hdr_xml_ns(ns);
    assert!(xml.starts_with("<AppHdr xmlns=\"urn:iso:std:iso:20022:tech:xsd:head.001.001.03\">"));
    assert_eq!(parse_business_header(&xml), Some(h));
}

#[test]
fn partial_header_reads_back() {
    let h = BusinessHeader {
        from: None,
        to: None,
        biz_msg_idr: Some("REF-9".to_string()),
        msg_def_idr: None,
        cre_dt: None,
    };
    let xml = h.to_app_hdr_xml();
    assert_eq!(
        xml,
        "<AppHdr xmlns=\"urn:iso:std:iso:20022:tech:xsd:head.001.001.02\"><BizMsgIdr>REF-9</BizMsgIdr></AppHdr>"
    );
    assert_eq!(parse_business_header(&xml), Some(h));
}

#[test]
fn empty_header_reads_as_absent() {
    let xml = BusinessHeader::default().to_app_hdr_xml();
    assert_eq!(xml, "<AppHdr xmlns=\"urn:iso:std:iso:20022:tech:xsd:head.001.001.02\"></AppHdr>");
    assert_eq!(parse_business_header(&xml), None);
}

#[test]
fn header_values_are_escaped() {
    let h = BusinessHeader {
        from: None,
        to: None,
        biz_msg_idr: Some("A<B&C>".to_string()),
        msg_def_idr: None,
        cre_dt: None,
    };
    let xml = h.to_app_hdr_xml();
    assert!(xml.contains("<BizMsgIdr>A&lt;B&amp;C&gt;</BizMsgIdr>"));
    assert_eq!(rust_iso20022::app_hdr::xml_escape("a&b<c>d"), "a&amp;b&lt;c&gt;d");
}

#[test]
fn header_whitespace_is_trimmed() {
    let xml = "<AppHdr><BizMsgIdr>  REF-1 \n</BizMsgIdr><MsgDefIdr></MsgDefIdr></AppHdr>";
    let h = parse_business_header(xml).expect("header");
    assert_eq!(h.biz_msg_idr.as_deref(), Some("REF-1"));
    assert_eq!(h.msg_def_idr.as_deref(), Some(""));
}

#[test]
fn written_header_holds_exactly_its_set_fields() {
    let h = BusinessHeader {
        from: None,
        to: Some("BANKDEFF".to_string()),
        biz_msg_idr: None,
        msg_def_idr: Some("pacs.008.001.08".to_string()),
        cre_dt: None,
    };
    let xml = h.to_app_hdr_xml();
    assert!(!xml.contains("<Fr>"));
    assert!(xml.contains("<To>"));
    assert!(!xml.contains("<BizMsgIdr>"));
    assert!(xml.contains("<MsgDefIdr>"));
    assert!(!xml.contains("<CreDt>"));
    assert!(xml.find("<To>").unwrap() < xml.find("<MsgDefIdr>").unwrap());
}

#[test]
fn element_inner_reads_plain_and_prefixed_elements() {
    assert_eq!(element_inner_str("<Amt>5 EUR</Amt>", "Amt").as_deref(), Some("5 EUR"));
    assert_eq!(element_inner_str("<h:Amt>5</h:Amt>", "Amt").as_deref(), Some("5"));
    assert_eq!(element_inner_str("<h:Amt>5</h:Amt>", "h:Amt"), None);
}
