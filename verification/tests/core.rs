use rust_iso20022::{catalogue, check_message_type, from_namespace, BusinessArea, Error, MxId};

#[test]
fn mxid_parses_full_namespace() {
    let id = MxId::parse("urn:iso:std:iso:20022:tech:xsd:pacs.008.001.08").unwrap();
    assert_eq!(id.business_area, BusinessArea::pacs);
    assert_eq!(id.functionality, "008");
    assert_eq!(id.variant, "001");
    assert_eq!(id.version, "08");
    assert_eq!(id.message_name(), "pacs.008.001.08");
    assert_eq!(
        id.namespace(),
        "urn:iso:std:iso:20022:tech:xsd:pacs.008.001.08"
    );
}

#[test]
fn mxid_parses_bare_name_and_roundtrips() {
    let id: MxId = "camt.053.001.08".parse().unwrap();
    assert_eq!(id.business_area, BusinessArea::camt);
    assert_eq!(id.message_name(), "camt.053.001.08");
}

#[test]
fn mxid_rejects_garbage() {
    assert!(MxId::parse("not-a-message").is_err());
    assert!(MxId::parse("zzzz.008.001.08").is_err()); // unknown area
    assert!(MxId::parse("pacs.8.1.8").is_err()); // wrong digit widths
    assert!(from_namespace("nonsense").is_none());
}

#[test]
fn business_area_codes_and_lookup() {
    assert_eq!(BusinessArea::pacs.code(), "pacs");
    assert_eq!(
        BusinessArea::pacs.description(),
        "Payments Clearing and Settlement"
    );
    assert_eq!(BusinessArea::from_code("camt"), Some(BusinessArea::camt));
    assert_eq!(BusinessArea::from_code("zzzz"), None);
    assert_eq!(BusinessArea::ALL.len(), 37);
    for a in BusinessArea::ALL {
        assert_eq!(BusinessArea::from_code(a.code()), Some(a));
    }
}

#[test]
fn mxid_errors_name_their_cause() {
    assert_eq!(
        MxId::parse("not-a-message"),
        Err(Error::InvalidMxId("not-a-message".to_string()))
    );
    assert_eq!(
        MxId::parse("zzzz.008.001.08"),
        Err(Error::UnknownBusinessArea("zzzz".to_string()))
    );
    let e = MxId::parse("pacs.8.1.8").unwrap_err();
    assert_eq!(e.message(), "invalid ISO 20022 message id: pacs.8.1.8");
    assert_eq!(
        Error::UnknownBusinessArea("zzzz".to_string()).message(),
        "unknown business area: zzzz"
    );
    assert_eq!(Error::Deserialize("x".to_string()).message(), "XML deserialization failed: x");
    assert_eq!(Error::Serialize("y".to_string()).message(), "XML serialization failed: y");
    let b: Result<BusinessArea, Error> = "qqqq".parse();
    assert_eq!(b, Err(Error::UnknownBusinessArea("qqqq".to_string())));
    assert_eq!("seev".parse::<BusinessArea>(), Ok(BusinessArea::seev));
}

#[test]
fn mxid_finds_the_token_in_any_text() {
    let id = MxId::parse("tech:xsd:sese.001.001.10").unwrap();
    assert_eq!(id.business_area, BusinessArea::sese);
    assert_eq!(id.namespace(), "urn:iso:std:iso:20022:tech:xsd:sese.001.001.10");
    let pacs = MxId::new(BusinessArea::pacs, "008", "001", "08");
    assert_eq!(MxId::parse("pacs.008.001.08.xsd"), Ok(pacs.clone()));
    assert_eq!(MxId::parse("pacs.008.001.08:"), Ok(pacs.clone()));
    assert_eq!(MxId::parse("  pacs.008.001.08.1 "), Ok(pacs));
    assert_eq!(
        MxId::parse("schemas/camt.053.001.08/pain.001.001.09.xsd").unwrap().message_name(),
        "pain.001.001.09"
    );
    assert!(MxId::parse("pacs.008.001").is_err());
    assert!(MxId::parse("pacs.0a8.001.08").is_err());
    assert_eq!(
        MxId::parse("abc.008.001.08"),
        Err(Error::UnknownBusinessArea("abc".to_string()))
    );
    assert_eq!(
        MxId::parse("urn:x: pac5.008.001.08 "),
        Err(Error::UnknownBusinessArea("pac5".to_string()))
    );
    assert_eq!(
        MxId::parse("pacs.8.1.8"),
        Err(Error::InvalidMxId("pacs.8.1.8".to_string()))
    );
    assert_eq!(
        MxId::parse("x:PACS.008.001.08"),
        Err(Error::UnknownBusinessArea("PACS".to_string()))
    );
}

#[test]
fn mxid_new_and_name_roundtrip() {
    let id = MxId::new(BusinessArea::pain, "001", "001", "09");
    assert_eq!(id.message_name(), "pain.001.001.09");
    assert_eq!(MxId::parse(&id.message_name()), Ok(id.clone()));
    assert_eq!(MxId::parse(&id.namespace()), Ok(id));
}

#[test]
fn from_namespace_at_crate_root() {
    let id = from_namespace("urn:iso:std:iso:20022:tech:xsd:pacs.008.001.08").unwrap();
    assert_eq!(id.business_area, BusinessArea::pacs);
    assert_eq!(id.message_name(), "pacs.008.001.08");
    assert!(catalogue::contains("pacs.008.001.08"));
    let entry = catalogue::from_message_name("pacs.008.001.08").unwrap();
    assert_eq!(entry.namespace, "urn:iso:std:iso:20022:tech:xsd:pacs.008.001.08");
}

#[test]
fn catalogue_lookups_are_consistent() {
    assert!(catalogue::contains("pacs.008.001.08"));
    assert!(catalogue::contains("sese.001.001.10"));
    assert!(catalogue::contains("semt.002.001.02"));
    assert!(catalogue::contains("tsmt.001.001.03"));
    assert!(!catalogue::contains("pacs.999.001.01"));

    let e = catalogue::from_message_name("pacs.008.001.08").unwrap();
    assert_eq!(e.business_area, "pacs");
    assert!(e.has_model);
    assert_eq!(catalogue::from_namespace(e.namespace).unwrap(), e);
    assert!(catalogue::from_namespace("pacs.008.001.08").is_none());

    let no_model = catalogue::all().iter().filter(|e| !e.has_model).count();
    assert_eq!(no_model, 0);
    assert!(catalogue::from_message_name("seev.030.001.01").unwrap().has_model);

    for entry in catalogue::all() {
        let id = MxId::parse(entry.message_name).expect("parses");
        assert_eq!(id.namespace(), entry.namespace);
        assert_eq!(id.business_area.code(), entry.business_area);
        assert_eq!(catalogue::from_message_name(entry.message_name), Some(entry));
    }
    let names: Vec<&str> = catalogue::all().iter().map(|e| e.message_name).collect();
    let mut sorted = names.clone();
    sorted.sort();
    sorted.dedup();
    assert_eq!(names, sorted);
}

const PAIN: &str = "<Document xmlns=\"urn:iso:std:iso:20022:tech:xsd:pain.001.001.09\"><CstmrCdtTrfInitn/></Document>";

#[test]
fn check_message_type_guards_the_type() {
    let id = check_message_type(PAIN, "pain.001.001.09").unwrap();
    assert_eq!(id.message_name(), "pain.001.001.09");
    assert_eq!(
        check_message_type(PAIN, "pacs.008.001.08"),
        Err(Error::InvalidMxId(
            "expected pacs.008.001.08, found pain.001.001.09".to_string()
        ))
    );
    assert_eq!(
        check_message_type("<Document/>", "pain.001.001.09"),
        Err(Error::InvalidMxId("no ISO 20022 namespace found in XML".to_string()))
    );
}

#[test]
fn detect_prefers_the_document_namespace() {
    let xml = "<Envelope><AppHdr xmlns=\"urn:iso:std:iso:20022:tech:xsd:head.001.001.02\"/>\
<Document xmlns=\"urn:iso:std:iso:20022:tech:xsd:camt.056.001.09\"/></Envelope>";
    assert_eq!(rust_iso20022::detect(xml).unwrap().message_name(), "camt.056.001.09");
    let only_hdr = "<AppHdr xmlns=\"urn:iso:std:iso:20022:tech:xsd:head.001.001.02\"/>";
    assert_eq!(rust_iso20022::detect(only_hdr).unwrap().message_name(), "head.001.001.02");
    assert!(rust_iso20022::detect("<Document/>").is_none());
}
