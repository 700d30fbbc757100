use rust_iso20022::{parse_as, BusinessArea, Error, MxMessage, MxNode};

#[derive(Debug, PartialEq)]
struct Pain001 {
    root: String,
}

impl MxMessage for Pain001 {
    const BUSINESS_AREA: BusinessArea = BusinessArea::pain;
    const FUNCTIONALITY: &'static str = "001";
    const VARIANT: &'static str = "001";
    const VERSION: &'static str = "09";
    const MESSAGE_NAME: &'static str = "pain.001.001.09";
    const NAMESPACE: &'static str = "urn:iso:std:iso:20022:tech:xsd:pain.001.001.09";

    fn parse(xml: &str) -> Result<Self, Error> {
        match MxNode::parse(xml) {
            Some(n) => Ok(Pain001 { root: n.name }),
            None => Err(Error::Deserialize("not XML".to_string())),
        }
    }

    fn to_xml_string(&self) -> Result<String, Error> {
        Ok(format!("<{}/>", self.root))
    }
}

const PAIN: &str = "<Document xmlns=\"urn:iso:std:iso:20022:tech:xsd:pain.001.001.09\"><CstmrCdtTrfInitn/></Document>";
const CAMT: &str = "<Document xmlns=\"urn:iso:std:iso:20022:tech:xsd:camt.056.001.09\"/>";

#[test]
fn message_carries_its_identity() {
    assert_eq!(Pain001::MESSAGE_NAME, "pain.001.001.09");
    assert_eq!(Pain001::BUSINESS_AREA, BusinessArea::pain);
    assert_eq!(Pain001::FUNCTIONALITY, "001");
    assert_eq!(Pain001::VERSION, "09");
    assert_eq!(Pain001::mx_id().message_name(), "pain.001.001.09");
    assert_eq!(
        Pain001::NAMESPACE,
        "urn:iso:std:iso:20022:tech:xsd:pain.001.001.09"
    );
    assert_eq!(Pain001::mx_id().namespace(), Pain001::NAMESPACE);
}

#[test]
fn detect_finds_the_message_type() {
    let id = rust_iso20022::detect(PAIN).expect("detect");
    assert_eq!(id.message_name(), "pain.001.001.09");
    assert_eq!(id.business_area, BusinessArea::pain);
}

#[derive(Debug, PartialEq)]
struct Camt056;

impl MxMessage for Camt056 {
    const BUSINESS_AREA: BusinessArea = BusinessArea::camt;
    const FUNCTIONALITY: &'static str = "056";
    const VARIANT: &'static str = "001";
    const VERSION: &'static str = "09";
    const MESSAGE_NAME: &'static str = "camt.056.001.09";
    const NAMESPACE: &'static str = "urn:iso:std:iso:20022:tech:xsd:camt.056.001.09";

    fn parse(_xml: &str) -> Result<Self, Error> {
        Ok(Camt056)
    }

    fn to_xml_string(&self) -> Result<String, Error> {
        Ok(String::new())
    }
}

#[test]
fn parse_as_guards_the_type() {
    // correct type parses
    assert!(parse_as::<Pain001>(PAIN).is_ok());
    // wrong type is rejected before parsing
    assert!(parse_as::<Camt056>(PAIN).is_err());
    assert_eq!(parse_as::<Camt056>(CAMT), Ok(Camt056));
}

#[test]
fn parse_as_guards_the_message_type() {
    let doc: Pain001 = parse_as(PAIN).unwrap();
    assert_eq!(doc.root, "Document");
    assert_eq!(doc.to_xml_string().unwrap(), "<Document/>");
    assert_eq!(
        parse_as::<Pain001>(CAMT),
        Err(Error::InvalidMxId("expected pain.001.001.09, found camt.056.001.09".to_string()))
    );
    assert_eq!(
        Pain001::parse_checked("<Document/>"),
        Err(Error::InvalidMxId("no ISO 20022 namespace found in XML".to_string()))
    );
}

#[test]
fn node_clone_is_equal() {
    let doc = MxNode::parse(PAIN).unwrap();
    let copy = doc.clone();
    assert_eq!(copy, doc);
    assert_eq!(copy.children[0].name, "CstmrCdtTrfInitn");
}
