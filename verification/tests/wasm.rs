use rust_iso20022::wasm;

const MSG: &str = "<Envelope><AppHdr xmlns=\"urn:iso:std:iso:20022:tech:xsd:head.001.001.02\">\
<Fr><FIId><FinInstnId><BICFI>BANKBEBB</BICFI></FinInstnId></FIId></Fr><BizMsgIdr>B\"1</BizMsgIdr></AppHdr>\
<Document xmlns=\"urn:iso:std:iso:20022:tech:xsd:pacs.008.001.08\"><GrpHdr><MsgId>M-1</MsgId>\
<TtlIntrBkSttlmAmt Ccy=\"EUR\">5.00</TtlIntrBkSttlmAmt></GrpHdr></Document></Envelope>";

#[test]
fn json_string_escaping() {
    assert_eq!(wasm::js("plain"), "\"plain\"");
    assert_eq!(wasm::js("a\"b\\c\nd\re\tf"), "\"a\\\"b\\\\c\\nd\\re\\tf\"");
    assert_eq!(wasm::js(""), "\"\"");
    assert_eq!(wasm::js("a\u{1}b\u{1f}c"), "\"a\\u0001b\\u001fc\"");
    assert_eq!(wasm::jso(&None), "null");
    assert_eq!(wasm::jso(&Some("x".to_string())), "\"x\"");
}

#[test]
fn identity_as_plain_values() {
    assert_eq!(wasm::detect(MSG).as_deref(), Some("pacs.008.001.08"));
    assert_eq!(wasm::detect("<x/>"), None);
    assert_eq!(
        wasm::from_namespace("urn:iso:std:iso:20022:tech:xsd:camt.053.001.08").as_deref(),
        Some("camt.053.001.08")
    );
    assert_eq!(wasm::from_namespace("nonsense"), None);
    assert_eq!(
        wasm::mx_id("pacs.008.001.08").as_deref(),
        Some("{\"messageName\":\"pacs.008.001.08\",\"namespace\":\"urn:iso:std:iso:20022:tech:xsd:pacs.008.001.08\",\"businessArea\":\"pacs\",\"functionality\":\"008\",\"variant\":\"001\",\"version\":\"08\"}")
    );
    assert_eq!(wasm::mx_id("pacs"), None);
}

#[test]
fn business_areas_as_plain_values() {
    assert_eq!(wasm::business_area_description("pacs").as_deref(), Some("Payments Clearing and Settlement"));
    assert_eq!(wasm::business_area_description("zzzz"), None);
    let codes = wasm::business_areas();
    assert_eq!(codes.len(), 37);
    assert_eq!(codes[0], "acmt");
    assert_eq!(codes[36], "xsys");
}

#[test]
fn catalogue_as_plain_values() {
    assert!(wasm::catalogue_contains("pacs.008.001.08"));
    assert!(!wasm::catalogue_contains("pacs.008"));
    assert_eq!(
        wasm::namespace_of("pacs.008.001.08").as_deref(),
        Some("urn:iso:std:iso:20022:tech:xsd:pacs.008.001.08")
    );
    assert_eq!(wasm::namespace_of("x"), None);
    assert_eq!(wasm::business_area_of("camt.056.001.09").as_deref(), Some("camt"));
    assert_eq!(wasm::business_area_of("x"), None);
    assert!(wasm::has_model("pacs.008.001.08"));
    assert!(!wasm::has_model("x"));
    assert_eq!(
        wasm::catalogue_entry("head.001.001.02").as_deref(),
        Some("{\"messageName\":\"head.001.001.02\",\"namespace\":\"urn:iso:std:iso:20022:tech:xsd:head.001.001.02\",\"businessArea\":\"head\",\"hasModel\":true}")
    );
    assert_eq!(wasm::catalogue_entry("x"), None);
    let all = wasm::catalogue_all();
    assert_eq!(all.len(), rust_iso20022::catalogue::all().len());
    assert!(all.iter().any(|n| n == "pacs.008.001.08"));
}

#[test]
fn headers_and_metadata_as_json() {
    assert_eq!(
        wasm::parse_app_hdr(MSG).as_deref(),
        Some("{\"from\":\"BANKBEBB\",\"to\":null,\"bizMsgIdr\":\"B\\\"1\",\"msgDefIdr\":null,\"creDt\":null}")
    );
    assert_eq!(wasm::parse_app_hdr("<Document/>"), None);
    assert_eq!(
        wasm::build_app_hdr(None, Some("BANKDEFF".to_string()), None, None, None),
        "<AppHdr xmlns=\"urn:iso:std:iso:20022:tech:xsd:head.001.001.02\"><To><FIId><FinInstnId><BICFI>BANKDEFF</BICFI></FinInstnId></FIId></To></AppHdr>"
    );
    assert_eq!(
        wasm::extract_metadata("<x/>"),
        "{\"messageId\":null,\"creationDateTime\":null,\"numberOfTransactions\":null,\"amount\":null,\"currency\":null,\"valueDate\":null}"
    );
    assert_eq!(
        wasm::read_business_message(MSG),
        "{\"messageName\":\"pacs.008.001.08\",\"header\":{\"from\":\"BANKBEBB\",\"to\":null,\"bizMsgIdr\":\"B\\\"1\",\"msgDefIdr\":null,\"creDt\":null},\
\"metadata\":{\"messageId\":\"M-1\",\"creationDateTime\":null,\"numberOfTransactions\":null,\"amount\":\"5.00\",\"currency\":\"EUR\",\"valueDate\":null}}"
    );
    assert_eq!(
        wasm::read_business_message("<x/>"),
        "{\"messageName\":null,\"header\":null,\"metadata\":{\"messageId\":null,\"creationDateTime\":null,\"numberOfTransactions\":null,\"amount\":null,\"currency\":null,\"valueDate\":null}}"
    );
}

const TREE: &str = r#"<Document xmlns="urn:iso:std:iso:20022:tech:xsd:pacs.008.001.08">
  <FIToFICstmrCdtTrf>
    <GrpHdr><MsgId>ABC-1</MsgId></GrpHdr>
    <CdtTrfTxInf><PmtId><EndToEndId>E2E-1</EndToEndId></PmtId><IntrBkSttlmAmt Ccy="EUR">10.00</IntrBkSttlmAmt></CdtTrfTxInf>
    <CdtTrfTxInf><PmtId><EndToEndId>E2E-2</EndToEndId></PmtId><IntrBkSttlmAmt Ccy="USD">20.00</IntrBkSttlmAmt></CdtTrfTxInf>
  </FIToFICstmrCdtTrf>
</Document>"#;

#[test]
fn generic_tree_lookups() {
    assert_eq!(wasm::node_text(TREE, "FIToFICstmrCdtTrf/GrpHdr/MsgId").as_deref(), Some("ABC-1"));
    assert_eq!(wasm::node_text(TREE, "FIToFICstmrCdtTrf/GrpHdr"), None);
    assert_eq!(wasm::node_text(TREE, "FIToFICstmrCdtTrf//MsgId"), None);
    assert_eq!(wasm::node_text("not xml <", "a"), None);
    assert_eq!(wasm::node_find(TREE, "EndToEndId").as_deref(), Some("E2E-1"));
    assert_eq!(wasm::node_find(TREE, "Nope"), None);
    assert_eq!(
        wasm::node_attr(TREE, "FIToFICstmrCdtTrf/CdtTrfTxInf/IntrBkSttlmAmt", "Ccy").as_deref(),
        Some("EUR")
    );
    assert_eq!(wasm::node_attr(TREE, "FIToFICstmrCdtTrf", "Ccy"), None);
    assert_eq!(wasm::node_find_attr(TREE, "IntrBkSttlmAmt", "Ccy").as_deref(), Some("EUR"));
    assert_eq!(wasm::node_find_all(TREE, "EndToEndId"), vec!["E2E-1".to_string(), "E2E-2".to_string()]);
    assert_eq!(wasm::node_find_all(TREE, "PmtId"), Vec::<String>::new());
    assert!(wasm::node_find_all("", "x").is_empty());
}

#[test]
fn tree_as_json() {
    let xml = r#"<a x="1" y="q&quot;"><b>t</b><c/></a>"#;
    assert_eq!(
        wasm::node_to_json(xml).as_deref(),
        Some("{\"name\":\"a\",\"value\":null,\"attributes\":{\"x\":\"1\",\"y\":\"q\\\"\"},\"children\":[\
{\"name\":\"b\",\"value\":\"t\",\"attributes\":{},\"children\":[]},\
{\"name\":\"c\",\"value\":null,\"attributes\":{},\"children\":[]}]}")
    );
    assert_eq!(wasm::node_to_json(""), None);
}

#[test]
fn json_strings_parse_back() {
    for s in ["", "plain", "a\"b\\c", "line\nbreak\r\ttab", "ctl\u{0}\u{1}\u{8}\u{c}\u{1b}\u{1f}", "é ü 日本 \u{7f}"] {
        let back: String = serde_json::from_str(&wasm::js(s)).unwrap();
        assert_eq!(back, s);
    }
}
