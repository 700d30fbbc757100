use rust_iso20022::MxNode;

const XML: &str = r#"
  <Document xmlns="urn:iso:std:iso:20022:tech:xsd:pacs.008.001.08">
    <FIToFICstmrCdtTrf>
      <GrpHdr><MsgId>ABC-1</MsgId></GrpHdr>
      <CdtTrfTxInf><IntrBkSttlmAmt Ccy="EUR">10.00</IntrBkSttlmAmt></CdtTrfTxInf>
      <CdtTrfTxInf><IntrBkSttlmAmt Ccy="USD">20.00</IntrBkSttlmAmt></CdtTrfTxInf>
    </FIToFICstmrCdtTrf>
  </Document>"#;

#[test]
fn navigates_a_parsed_tree() {
    let doc = MxNode::parse(XML).unwrap();
    assert_eq!(doc.name, "Document");
    assert_eq!(doc.at(&["FIToFICstmrCdtTrf", "GrpHdr", "MsgId"]).and_then(|n| n.text()), Some("ABC-1"));
    assert_eq!(doc.find("MsgId").and_then(|n| n.text()), Some("ABC-1"));
    let amts = doc.find_all("IntrBkSttlmAmt");
    assert_eq!(amts.len(), 2);
    assert_eq!(amts[0].attr("Ccy"), Some("EUR"));
    assert_eq!(amts[1].text(), Some("20.00"));
}

#[test]
fn path_and_child_lookups() {
    let doc = MxNode::parse(XML).unwrap();
    assert!(doc.at(&[]).map(|n| n.name == "Document").unwrap_or(false));
    let tx = doc.get("FIToFICstmrCdtTrf").unwrap();
    assert_eq!(tx.children.len(), 3);
    assert_eq!(tx.get("CdtTrfTxInf").unwrap().find("IntrBkSttlmAmt").unwrap().text(), Some("10.00"));
    assert!(doc.get("MsgId").is_none());
    assert!(doc.at(&["FIToFICstmrCdtTrf", "Nope"]).is_none());
    assert!(doc.find("Nope").is_none());
    assert!(doc.find_all("Nope").is_empty());
    assert!(doc.find("Document").is_none());
    assert_eq!(doc.attr("xmlns"), None);
    assert_eq!(doc.text(), None);
}

#[test]
fn parse_rejects_malformed_or_empty() {
    assert!(MxNode::parse("").is_none());
    assert!(MxNode::parse("<a><b></a>").is_none());
    let leaf = MxNode::parse("<p:Amt xmlns:p=\"urn:x\" p:Ccy=\"EUR\"> 5 </p:Amt>").unwrap();
    assert_eq!(leaf.name, "Amt");
    assert_eq!(leaf.attr("Ccy"), Some("EUR"));
    assert_eq!(leaf.text(), Some("5"));
    assert_eq!(leaf, MxNode {
        name: "Amt".to_string(),
        value: Some("5".to_string()),
        attributes: vec![("Ccy".to_string(), "EUR".to_string())],
        children: Vec::new(),
    });
}

#[test]
fn parsed_values_are_trimmed_and_never_blank() {
    let doc = MxNode::parse("<a> x <b>  </b> y </a>").unwrap();
    assert_eq!(doc.value.as_deref(), Some("xy"));
    assert_eq!(doc.children[0].name, "b");
    assert_eq!(doc.children[0].value, None);
}
