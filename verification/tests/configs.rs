use treasury::config::{default_pending_timeout, find_treasury_info, join_under,
    resolve_treasury_paths, TreasuryInfo};
use treasury::id::AssetId;
use treasury::scan::{AssetItem, ScanIndex};

#[test]
fn pending_timeout_defaults_to_forever() {
    assert_eq!(default_pending_timeout(), -1);
}

#[test]
fn treasury_info_defaults() {
    let info: TreasuryInfo = Default::default();
    assert!(info.artifacts.is_none());
    assert!(info.external.is_none());
    assert!(info.temp.is_none());
    assert!(info.importers.is_empty());
}

#[test]
fn paths_resolve_to_defaults() {
    let info = TreasuryInfo::new(None, None, None, Vec::new());
    let paths = resolve_treasury_paths(&String::from("/base"), &info);
    assert_eq!(paths.artifacts, "/base/treasury/artifacts");
    assert_eq!(paths.external, "/base/treasury/external");
    assert!(paths.temp.is_none());
}

#[test]
fn paths_respect_overrides() {
    let info = TreasuryInfo::new(
        Some(String::from("art")),
        Some(String::from("ext")),
        Some(String::from("tmp")),
        Vec::new(),
    );
    let paths = resolve_treasury_paths(&String::from("/base"), &info);
    assert_eq!(paths.artifacts, "/base/art");
    assert_eq!(paths.external, "/base/ext");
    assert_eq!(paths.temp.as_deref(), Some("/base/tmp"));
}

#[test]
fn join_under_concatenates() {
    assert_eq!(join_under(&String::from("/a"), "b"), "/a/b");
}

#[test]
fn nearest_ancestor_with_meta_wins() {
    let ancestors = vec![
        (String::from("/base/sub"), false),
        (String::from("/base"), true),
        (String::from("/"), true),
    ];
    assert_eq!(
        find_treasury_info(&ancestors),
        Some(String::from("/base/Treasury.toml"))
    );
}

#[test]
fn no_meta_in_any_ancestor() {
    let ancestors = vec![(String::from("/a"), false), (String::from("/"), false)];
    assert_eq!(find_treasury_info(&ancestors), None);
}

fn item(source: &str, target: &str) -> AssetItem {
    AssetItem { source: source.to_string(), format: None, target: target.to_string() }
}

#[test]
fn scan_index_lookup() {
    let mut index = ScanIndex::new();
    assert!(!index.is_scanned());
    let id = AssetId::new(5).unwrap();
    assert!(index.lookup(id).is_none());
    index.add(id, item("a.json", "foo"));
    index.mark_scanned();
    assert!(index.is_scanned());
    let found = index.lookup(id).unwrap();
    assert_eq!(found.source, "a.json");
    assert_eq!(found.target, "foo");
}

#[test]
fn scan_index_keeps_first_sighting() {
    let mut index = ScanIndex::new();
    let id = AssetId::new(6).unwrap();
    index.add(id, item("first", "t"));
    index.add(id, item("second", "t"));
    assert_eq!(index.lookup(id).unwrap().source, "first");
}
