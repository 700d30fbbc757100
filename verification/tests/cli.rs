use rust_iso20022::catalogue;
use rust_iso20022::cli::lookup;

#[test]
fn empty_query_lists_everything() {
    let rows = lookup("");
    assert_eq!(rows.len(), catalogue::all().len());
    for (row, e) in rows.iter().zip(catalogue::all()) {
        assert_eq!(row.message_name, e.message_name);
        assert_eq!(row.namespace, e.namespace);
        assert_eq!(row.business_area, e.business_area);
        assert_eq!(row.model, "yes");
    }
}

#[test]
fn query_matches_without_regard_to_case() {
    let rows = lookup("PACS.008");
    assert_eq!(rows.len(), 1);
    assert_eq!(rows[0].message_name, "pacs.008.001.08");
    assert_eq!(rows[0].description, "Payments Clearing and Settlement");
    let camt: Vec<&str> = lookup("camt").iter().map(|r| r.message_name).collect();
    assert_eq!(camt, vec!["camt.053.001.08", "camt.056.001.09"]);
}

#[test]
fn query_matches_area_description() {
    let rows = lookup("securities");
    let names: Vec<&str> = rows.iter().map(|r| r.message_name).collect();
    assert_eq!(names, vec!["seev.030.001.01", "semt.002.001.02", "sese.001.001.10"]);
    assert!(lookup("no such thing").is_empty());
    let by_version: Vec<&str> = lookup("001.001").iter().map(|r| r.message_name).collect();
    assert!(by_version.contains(&"pain.001.001.09"));
    assert!(by_version.contains(&"tsmt.001.001.03"));
}
