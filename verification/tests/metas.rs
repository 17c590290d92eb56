use treasury::hash::HashSha256;
use treasury::id::AssetId;
use treasury::meta::{default_prefix, get_meta_path, is_local_meta_path, local_meta_path,
    prefix_is_default, suffix_is_zero, AssetMeta, MetaPath, SourceMeta};
use treasury::placement::DirEntry;

fn sample_asset(id: u64, content: &[u8]) -> AssetMeta {
    let entries: Vec<DirEntry> = Vec::new();
    let (meta, _placement) = AssetMeta::new(
        AssetId::new(id).unwrap(),
        None,
        Vec::new(),
        Vec::new(),
        &content.to_vec(),
        &entries,
    );
    meta
}

#[test]
fn serde_helpers() {
    assert_eq!(default_prefix(), 8);
    assert!(prefix_is_default(&8));
    assert!(!prefix_is_default(&9));
    assert!(suffix_is_zero(&0));
    assert!(!suffix_is_zero(&1));
}

#[test]
fn asset_meta_records_hash_and_placement() {
    let content = b"artifact bytes";
    let meta = sample_asset(3, content);
    assert_eq!(meta.sha256.to_hex(), HashSha256::new(content).to_hex());
    assert_eq!(meta.prefix, 8);
    assert_eq!(meta.suffix, 0);
    assert_eq!(meta.id.value(), 3);
}

#[test]
fn artifact_name_is_hash_prefix() {
    let content = b"xyz";
    let meta = sample_asset(4, content);
    let hexs = HashSha256::new(content).to_hex();
    assert_eq!(meta.artifact_name(), &hexs[..8]);
    assert_eq!(
        meta.artifact_path(&String::from("/t/artifacts")),
        format!("/t/artifacts/{}", &hexs[..8])
    );
}

#[test]
fn artifact_name_with_suffix() {
    let content = b"collide";
    let mut meta = sample_asset(5, content);
    meta.prefix = 64;
    meta.suffix = 2;
    let hexs = HashSha256::new(content).to_hex();
    assert_eq!(meta.artifact_name(), format!("{}:2", hexs));
}

#[test]
fn added_asset_is_found_again() {
    // Adding an asset to a source meta and reading it back yields the same
    // record.
    let mut meta = SourceMeta::new(String::from("file:///base/a.json"));
    assert!(meta.get_asset("foo").is_none());
    let asset = sample_asset(7, b"payload");
    meta.add_asset(String::from("foo"), asset);
    let got = meta.get_asset("foo").expect("asset must be there");
    assert_eq!(got.id.value(), 7);
    assert!(meta.get_asset("bar").is_none());
}

#[test]
fn adding_same_target_replaces() {
    let mut meta = SourceMeta::new(String::from("file:///base/a.json"));
    meta.add_asset(String::from("foo"), sample_asset(1, b"old"));
    meta.add_asset(String::from("foo"), sample_asset(2, b"new"));
    assert_eq!(meta.get_asset("foo").unwrap().id.value(), 2);
}

#[test]
fn meta_survives_part_round_trip() {
    // Rebuilding a meta from its persisted parts keeps the asset.
    let mut meta = SourceMeta::new(String::from("file:///base/a.json"));
    meta.add_asset(String::from("foo"), sample_asset(9, b"bytes"));
    let url = meta.url().clone();
    let mut parts: Vec<(String, AssetMeta)> = Vec::new();
    for (t, a) in meta.assets() {
        parts.push((
            t.clone(),
            AssetMeta {
                id: a.id,
                sha256: a.sha256.clone(),
                prefix: a.prefix,
                suffix: a.suffix,
                format: a.format.clone(),
                sources: a.sources.clone(),
                dependencies: a.dependencies.clone(),
            },
        ));
    }
    let reopened = SourceMeta::from_parts(url, parts);
    assert_eq!(reopened.get_asset("foo").unwrap().id.value(), 9);
}

#[test]
fn local_source_meta_path_is_sidecar() {
    // A local source's meta path is the source path with `.treasure`.
    let p = local_meta_path(&String::from("/base/model.json"));
    assert_eq!(p, "/base/model.json.treasure");
    assert!(is_local_meta_path(&p));
    assert!(!is_local_meta_path("/base/model.json"));
}

#[test]
fn meta_path_local_under_base() {
    let r = get_meta_path(
        &Some(String::from("/base/dir/model.json")),
        &String::from("/base"),
    );
    match r {
        MetaPath::Local { meta_path } => {
            assert_eq!(meta_path, "/base/dir/model.json.treasure")
        }
        MetaPath::External => panic!("expected local"),
    }
}

#[test]
fn meta_path_external_outside_base() {
    // A source outside the base, or one that is no file at all, stores its
    // meta under the external directory.
    let r = get_meta_path(&Some(String::from("/elsewhere/a")), &String::from("/base"));
    assert!(matches!(r, MetaPath::External));
    let r = get_meta_path(&None, &String::from("/base"));
    assert!(matches!(r, MetaPath::External));
}
