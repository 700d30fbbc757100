use rust_iso20022::fetch::{
    decimal_string, download_step, schema_file_name, Fetcher, RemoteMessage, ISO20022_INDEX,
};

#[test]
fn parses_message_links_from_html() {
    let f = Fetcher::new();
    let html = r#"
            <a href="/message/14316/download">pacs.008.001.08</a>
            <a href="https://example.org/schemas/pain.001.001.09.xsd">pain</a>
            <a href="/message/14316/download">dup</a>
        "#;
    let msgs = f.parse_index(html);
    assert_eq!(msgs.len(), 2, "duplicate links should be de-duplicated");
    assert_eq!(msgs[0].message_name, None);
    assert_eq!(
        msgs[0].xsd_url,
        "https://www.iso20022.org/message/14316/download"
    );
    assert_eq!(msgs[1].message_name.as_deref(), Some("pain.001.001.09"));
}

#[test]
fn fetcher_defaults_and_sources() {
    let f = Fetcher::new();
    assert_eq!(f.origin, "https://www.iso20022.org");
    assert_eq!(f.index_url, ISO20022_INDEX);
    let g = Fetcher::new().with_source("http://mirror.local/".to_string(), "http://mirror.local/idx".to_string());
    assert_eq!(g.origin, "http://mirror.local/");
    assert_eq!(g.absolutize("/a/b.xsd"), "http://mirror.local/a/b.xsd");
    assert_eq!(g.absolutize("x.xsd"), "http://mirror.local/x.xsd");
    assert_eq!(g.absolutize("https://h/x.xsd"), "https://h/x.xsd");
}

#[test]
fn ignores_links_that_are_not_schemas() {
    let f = Fetcher::new();
    let html = r#"<a href="/about">About</a> <a href='/x/a.xsd'>q</a> <a href="/files/camt.053.001.08.xsd">c</a>"#;
    let msgs = f.parse_index(html);
    assert_eq!(msgs.len(), 1);
    assert_eq!(msgs[0].xsd_url, "https://www.iso20022.org/files/camt.053.001.08.xsd");
    assert_eq!(msgs[0].message_name.as_deref(), Some("camt.053.001.08"));
    assert!(f.parse_index("no links here").is_empty());
}

#[test]
fn schema_names_and_urls() {
    assert_eq!(decimal_string(0), "0");
    assert_eq!(decimal_string(4072), "4072");
    let named = RemoteMessage { message_name: Some("pacs.008.001.08".to_string()), xsd_url: "u".to_string() };
    assert_eq!(schema_file_name(&named, 3), "pacs.008.001.08.xsd");
    let unnamed = RemoteMessage { message_name: None, xsd_url: "u".to_string() };
    assert_eq!(schema_file_name(&unnamed, 12), "schema_12.xsd");
    let f = Fetcher::new();
    let url = f.schema_url("pacs.008.001.08");
    assert!(url.starts_with("https://www.iso20022.org"));
    assert!(url.ends_with("pacs.008.001.08.xsd"));
}

#[test]
fn default_fetcher_is_new() {
    assert_eq!(Fetcher::default(), Fetcher::new());
}

#[test]
fn download_steps_count_what_is_written() {
    let named = RemoteMessage { message_name: Some("pacs.008.001.08".to_string()), xsd_url: "u".to_string() };
    let unnamed = RemoteMessage { message_name: None, xsd_url: "v".to_string() };
    let (w, file) = download_step(0, 0, &named, Some("<xs:schema/>".to_string()));
    assert_eq!(w, 1);
    assert_eq!(file, Some(("pacs.008.001.08.xsd".to_string(), "<xs:schema/>".to_string())));
    let (w, file) = download_step(w, 1, &unnamed, None);
    assert_eq!(w, 1);
    assert_eq!(file, None);
    let (w, file) = download_step(w, 2, &unnamed, Some("x".to_string()));
    assert_eq!(w, 2);
    assert_eq!(file, Some(("schema_2.xsd".to_string(), "x".to_string())));
}
