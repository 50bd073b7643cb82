use rippkgs::error::Error;
use rippkgs::normalize::normalize;
use rippkgs::registry::{Meta, Output, PackageInfo, Registry};

fn info(pname: Option<&str>, version: Option<&str>, outputs: &[(&str, &str)]) -> PackageInfo {
    PackageInfo {
        pname: pname.map(|s| s.to_string()),
        version: version.map(|s| s.to_string()),
        outputs: outputs
            .iter()
            .map(|(l, p)| Output { label: l.to_string(), path: p.to_string() })
            .collect(),
        meta: Some(Meta {
            description: Some("a browser".to_string()),
            long_description: None,
        }),
    }
}

#[test]
fn installable_entries_become_records() {
    let mut r = Registry::new();
    r.insert("firefox".to_string(), info(Some("firefox"), Some("120.0"), &[("out", "/nix/store/abc-firefox")]));
    r.insert("stdenv".to_string(), info(Some("stdenv"), Some("1"), &[("dev", "/nix/store/def-dev")]));
    r.insert("hello".to_string(), info(None, Some("2.12"), &[("dev", "/x"), ("out", "/nix/store/ghi-hello")]));
    let records = match normalize(&r) {
        Ok(v) => v,
        Err(_) => panic!("normalization failed"),
    };
    assert_eq!(records.len(), 2);
    assert_eq!(records[0].attribute, "firefox");
    assert_eq!(records[0].name, "firefox");
    assert_eq!(records[0].version, "120.0");
    assert_eq!(records[0].store_path.as_deref(), Some("/nix/store/abc-firefox"));
    assert_eq!(records[0].description.as_deref(), Some("a browser"));
    assert_eq!(records[0].long_description, None);
    assert_eq!(records[0].score, None);
    assert_eq!(records[1].attribute, "hello");
    assert_eq!(records[1].store_path.as_deref(), Some("/nix/store/ghi-hello"));
}

#[test]
fn missing_pname_falls_back_to_attribute() {
    let mut r = Registry::new();
    r.insert("python3Packages.requests".to_string(), info(None, Some("2.31"), &[("out", "/nix/store/r")]));
    let records = match normalize(&r) {
        Ok(v) => v,
        Err(_) => panic!("normalization failed"),
    };
    assert_eq!(records.len(), 1);
    assert_eq!(records[0].name, "python3Packages.requests");
}

#[test]
fn missing_version_is_an_error() {
    let mut r = Registry::new();
    r.insert("ok".to_string(), info(None, Some("1"), &[("out", "/a")]));
    r.insert("bad".to_string(), info(None, None, &[("out", "/b")]));
    r.insert("worse".to_string(), info(None, None, &[("out", "/c")]));
    match normalize(&r) {
        Err(Error::MissingVersion { attribute }) => assert_eq!(attribute, "bad"),
        _ => panic!("expected MissingVersion"),
    }
}

#[test]
fn missing_version_without_out_is_skipped() {
    let mut r = Registry::new();
    r.insert("bootstrap".to_string(), info(None, None, &[]));
    match normalize(&r) {
        Ok(v) => assert!(v.is_empty()),
        Err(_) => panic!("entries without out are not an error"),
    }
}

#[test]
fn insert_replaces_same_attribute() {
    let mut r = Registry::new();
    r.insert("a".to_string(), info(Some("first"), Some("1"), &[("out", "/a")]));
    r.insert("b".to_string(), info(None, Some("1"), &[("out", "/b")]));
    r.insert("a".to_string(), info(Some("second"), Some("2"), &[("out", "/a2")]));
    assert_eq!(r.len(), 2);
    let records = match normalize(&r) {
        Ok(v) => v,
        Err(_) => panic!("normalization failed"),
    };
    assert_eq!(records.len(), 2);
    assert_eq!(records[0].attribute, "a");
    assert_eq!(records[0].name, "second");
    assert_eq!(records[0].version, "2");
    assert_eq!(records[1].attribute, "b");
}

#[test]
fn empty_registry_gives_no_records() {
    let r = Registry::new();
    match normalize(&r) {
        Ok(v) => assert!(v.is_empty()),
        Err(_) => panic!("normalization failed"),
    }
}
