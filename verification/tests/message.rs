use rust_iso20022::strip_unknown;
use rust_iso20022::message::strip_unknown as strip_unknown_in_module;

#[test]
fn strips_unknown_elements() {
    assert_eq!(
        strip_unknown("<AdrTp><__Unknown__>No valid variants</__Unknown__></AdrTp>"),
        "<AdrTp></AdrTp>"
    );
    assert_eq!(strip_unknown("<a><__Unknown__/></a>"), "<a></a>");
    assert_eq!(strip_unknown("<a><IBAN>x</IBAN></a>"), "<a><IBAN>x</IBAN></a>");
}

#[test]
fn strip_unknown_keeps_text_without_markers() {
    let xml = "<Document><GrpHdr><MsgId>A&amp;B</MsgId></GrpHdr></Document>";
    assert_eq!(strip_unknown_in_module(xml), xml);
    assert_eq!(strip_unknown(""), "");
}

#[test]
fn strip_unknown_removes_every_marker() {
    assert_eq!(
        strip_unknown("<x><__Unknown__>a</__Unknown__><y/><__Unknown__/></x>"),
        "<x><y/></x>"
    );
}
