use rust_iso20022::{detect, read_business_message, MxNode};

const MESSAGE: &str = r#"<?xml version="1.0" encoding="UTF-8"?>
<BizMsgEnvlp>
  <AppHdr xmlns="urn:iso:std:iso:20022:tech:xsd:head.001.001.02">
    <Fr><FIId><FinInstnId><BICFI>BANKBEBB</BICFI></FinInstnId></FIId></Fr>
    <To><FIId><FinInstnId><BICFI>BANKDEFF</BICFI></FinInstnId></FIId></To>
    <BizMsgIdr>MSG-2026-0001</BizMsgIdr>
    <MsgDefIdr>pacs.008.001.08</MsgDefIdr>
    <CreDt>2026-06-27T10:30:00Z</CreDt>
  </AppHdr>
  <Document xmlns="urn:iso:std:iso:20022:tech:xsd:pacs.008.001.08">
    <FIToFICstmrCdtTrf>
      <GrpHdr>
        <MsgId>ABC-2026-0001</MsgId>
        <CreDtTm>2026-06-27T10:30:00Z</CreDtTm>
        <NbOfTxs>1</NbOfTxs>
        <SttlmInf><SttlmMtd>INDA</SttlmMtd></SttlmInf>
      </GrpHdr>
      <CdtTrfTxInf>
        <PmtId><EndToEndId>E2E-REF-001</EndToEndId></PmtId>
        <IntrBkSttlmAmt Ccy="EUR">1234.56</IntrBkSttlmAmt>
        <IntrBkSttlmDt>2026-06-30</IntrBkSttlmDt>
        <Dbtr><Nm>Alice Inc.</Nm></Dbtr>
        <Cdtr><Nm>Bob Ltd.</Nm></Cdtr>
      </CdtTrfTxInf>
    </FIToFICstmrCdtTrf>
  </Document>
</BizMsgEnvlp>"#;

#[test]
fn inspects_an_incoming_business_message() {
    let id = detect(MESSAGE).expect("a recognisable ISO 20022 message");
    assert_eq!(id.message_name(), "pacs.008.001.08");
    assert_eq!(id.business_area.description(), "Payments Clearing and Settlement");

    let bm = read_business_message(MESSAGE);
    let h = bm.header.as_ref().unwrap();
    assert_eq!(h.from.as_deref(), Some("BANKBEBB"));
    assert_eq!(h.to.as_deref(), Some("BANKDEFF"));
    assert_eq!(h.biz_msg_idr.as_deref(), Some("MSG-2026-0001"));
    let m = &bm.metadata;
    assert_eq!(m.message_id.as_deref(), Some("ABC-2026-0001"));
    assert_eq!(m.amount.as_deref(), Some("1234.56"));
    assert_eq!(m.currency.as_deref(), Some("EUR"));
    assert_eq!(m.value_date.as_deref(), Some("2026-06-30"));

    let doc = MxNode::parse(MESSAGE).expect("parseable tree");
    assert_eq!(doc.name, "BizMsgEnvlp");
    assert_eq!(doc.find("EndToEndId").and_then(|n| n.text()), Some("E2E-REF-001"));
    assert_eq!(doc.find("Dbtr").and_then(|n| n.get("Nm")).and_then(|n| n.text()), Some("Alice Inc."));
    assert_eq!(doc.find("Cdtr").and_then(|n| n.get("Nm")).and_then(|n| n.text()), Some("Bob Ltd."));
    let amt = doc.find("IntrBkSttlmAmt").unwrap();
    assert_eq!(amt.text(), Some("1234.56"));
    assert_eq!(amt.attr("Ccy"), Some("EUR"));
}
