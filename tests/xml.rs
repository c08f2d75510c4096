use versio::scan::xml::XmlScanner;
use versio::scan::{NamedData, ScanError};

#[test]
fn test_xml() {
    let doc = r#"
<version>1.2.3</version>"#;

    let marked_data = XmlScanner::new("version").scan(NamedData::new(None, doc.to_string())).unwrap();
    assert_eq!("1.2.3", marked_data.value());
    assert_eq!(10, marked_data.start());
}

#[test]
fn test_xml_complex() {
    let doc = r#"
<version>
  <thing>
    <version>1.2.3</version>
  </thing>
</version>"#;

    let marked_data = XmlScanner::new("version.thing.version").scan(NamedData::new(None, doc.to_string())).unwrap();
    assert_eq!("1.2.3", marked_data.value());
    assert_eq!(34, marked_data.start());
}

#[test]
fn test_xml_clever() {
    let doc = r#"
<_0>
  <the.version>1.2.3</version>
</_0>"#;

    let marked_data = XmlScanner::from_parts(&["_0", "the.version"]).scan(NamedData::new(None, doc.to_string())).unwrap();
    assert_eq!("1.2.3", marked_data.value());
    assert_eq!(21, marked_data.start());
}

#[test]
fn test_xml_utf8() {
    let doc = r#"
<naïve><versíøn>1.2.3</naïve></versíøn>"#;

    let marked_data = XmlScanner::new("naïve.versíøn").scan(NamedData::new(None, doc.to_string())).unwrap();
    assert_eq!("1.2.3", marked_data.value());
    assert_eq!(20, marked_data.start());
}

#[test]
fn xml_missing_element_reports_remaining_path() {
    let doc = "<project><name>x</name></project>";
    let r = XmlScanner::new("project.version").scan(NamedData::new(None, doc.to_string()));
    assert_eq!(r.err(), Some(ScanError::NotFound(1)));
}

#[test]
fn xml_empty_path_is_rejected() {
    let r = XmlScanner::from_parts(&[]).scan(NamedData::new(None, "<a>1</a>".to_string()));
    assert_eq!(r.err(), Some(ScanError::NoParts));
}

#[test]
fn xml_splits_dotted_path() {
    let s = XmlScanner::new("a.b.c");
    assert_eq!(s.target, vec!["a".to_string(), "b".to_string(), "c".to_string()]);
}

#[test]
fn xml_nested_text_found_under_target() {
    let doc = "<a><b>7.0.1</b></a>";
    let m = XmlScanner::new("a").scan(NamedData::new(Some("f.xml".to_string()), doc.to_string())).unwrap();
    assert_eq!(m.value(), "7.0.1");
    assert_eq!(m.start(), 6);
}
