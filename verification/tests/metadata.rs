use rust_iso20022::metadata::{extract, MessageMetadata};
use rust_iso20022::read_business_message;

const PACS008: &str = r#"<?xml version="1.0"?>
<Document xmlns="urn:iso:std:iso:20022:tech:xsd:pacs.008.001.08">
  <FIToFICstmrCdtTrf>
    <GrpHdr>
      <MsgId>MSG-2026-0001</MsgId>
      <CreDtTm>2026-06-25T10:00:00Z</CreDtTm>
      <NbOfTxs>2</NbOfTxs>
      <TtlIntrBkSttlmAmt Ccy="EUR">5000.00</TtlIntrBkSttlmAmt>
    </GrpHdr>
    <CdtTrfTxInf>
      <IntrBkSttlmAmt Ccy="EUR">1234.56</IntrBkSttlmAmt>
      <IntrBkSttlmDt>2026-06-26</IntrBkSttlmDt>
    </CdtTrfTxInf>
  </FIToFICstmrCdtTrf>
</Document>"#;

#[test]
fn extracts_payment_metadata() {
    let m = extract(PACS008);
    assert_eq!(m.message_id.as_deref(), Some("MSG-2026-0001"));
    assert_eq!(m.creation_date_time.as_deref(), Some("2026-06-25T10:00:00Z"));
    assert_eq!(m.number_of_transactions.as_deref(), Some("2"));
    // The total settlement amount is preferred over the per-tx amount.
    assert_eq!(m.amount.as_deref(), Some("5000.00"));
    assert_eq!(m.currency.as_deref(), Some("EUR"));
    assert_eq!(m.value_date.as_deref(), Some("2026-06-26"));
}

#[test]
fn empty_for_unknown_content() {
    let m = extract("<Document><Foo>x</Foo></Document>");
    assert_eq!(m, Default::default());
}

#[test]
fn amount_falls_back_to_instructed_amount() {
    let xml = "<Document><CstmrCdtTrfInitn><GrpHdr><MsgId>P1</MsgId></GrpHdr>\
<PmtInf><ReqdExctnDt><Dt>2026-07-01</Dt></ReqdExctnDt>\
<CdtTrfTxInf><Amt><InstdAmt Ccy=\"USD\">12.50</InstdAmt></Amt></CdtTrfTxInf></PmtInf>\
</CstmrCdtTrfInitn></Document>";
    let m = extract(xml);
    assert_eq!(m.message_id.as_deref(), Some("P1"));
    assert_eq!(m.amount.as_deref(), Some("12.50"));
    assert_eq!(m.currency.as_deref(), Some("USD"));
}

#[test]
fn reads_whole_business_message() {
    let xml = "<Envelope><AppHdr xmlns=\"urn:iso:std:iso:20022:tech:xsd:head.001.001.02\">\
<BizMsgIdr>B-1</BizMsgIdr></AppHdr>\
<Document xmlns=\"urn:iso:std:iso:20022:tech:xsd:pacs.008.001.08\"><GrpHdr><MsgId>M-1</MsgId></GrpHdr></Document></Envelope>";
    let bm = read_business_message(xml);
    assert_eq!(bm.header.unwrap().biz_msg_idr.as_deref(), Some("B-1"));
    assert_eq!(bm.id.unwrap().message_name(), "pacs.008.001.08");
    assert_eq!(bm.metadata.message_id.as_deref(), Some("M-1"));
    let none = read_business_message("<x/>");
    assert!(none.header.is_none());
    assert!(none.id.is_none());
    assert_eq!(none.metadata, MessageMetadata::default());
}
