use treasury::engine::{needs_reimport, Engine, MAX_ITEM_ATTEMPTS};
use treasury::id::AssetId;
use treasury::meta::AssetMeta;
use treasury::meta::SourceMeta;
use treasury::placement::DirEntry;

fn fresh_engine() -> Engine {
    Engine::new(
        String::from("file:///base/a.json"),
        None,
        String::from("foo"),
    )
}

#[test]
fn existing_fresh_asset_completes_without_import() {
    // The idempotence path: when the meta already has a fresh asset for
    // the requested target, the store call completes with that asset's id
    // and no importer runs.
    let mut engine = fresh_engine();
    engine.begin_attempt();
    let id = AssetId::new(11).unwrap();
    let done = engine.on_existing_asset(id, String::from("/t/artifacts/abcd1234"));
    let (got, path) = done.expect("single item must complete");
    assert_eq!(got.value(), 11);
    assert_eq!(path, "/t/artifacts/abcd1234");
    assert!(engine.is_done());
}

#[test]
fn require_dependencies_pushes_items_depth_first() {
    // A dependency request pushes fresh items that are worked on before
    // the requesting item is retried.
    let mut engine = fresh_engine();
    engine.begin_attempt();
    let failed = engine.on_require_dependencies(vec![(
        String::from("file:///base/b.bin"),
        String::from("t2"),
    )]);
    assert!(!failed);
    assert_eq!(engine.current().source, "file:///base/b.bin");
    assert_eq!(engine.current().target, "t2");
    assert_eq!(engine.current().attempt, 0);
    assert!(engine.current().format.is_none());

    // Finish the dependency; the parent is on top again.
    engine.begin_attempt();
    let id_b = AssetId::new(22).unwrap();
    assert!(engine.on_existing_asset(id_b, String::from("p")).is_none());
    assert_eq!(engine.current().source, "file:///base/a.json");
    assert_eq!(engine.current().attempt, 1);
}

#[test]
fn recorded_dependency_lands_in_asset_record() {
    // Dependency completion: a dependency the importer read is recorded in
    // the finished item's record.
    let mut engine = fresh_engine();
    engine.begin_attempt();
    let id_b = AssetId::new(33).unwrap();
    engine.record_dependency(id_b);
    engine.record_source(String::from("file:///base/a.json"), 777);
    let item = engine.pop_finished();
    assert!(engine.is_done());
    assert_eq!(item.dependencies.len(), 1);
    assert_eq!(item.sources, vec![(String::from("file:///base/a.json"), 777)]);
    let entries: Vec<DirEntry> = Vec::new();
    let (meta, _p) = AssetMeta::new(
        AssetId::new(44).unwrap(),
        item.format,
        item.sources,
        item.dependencies,
        &b"output".to_vec(),
        &entries,
    );
    assert!(meta.dependencies.iter().any(|d| d.value() == 33));
}

#[test]
fn attempts_are_bounded_exactly() {
    // An importer that always asks for the same thing fails after exactly
    // MAX_ITEM_ATTEMPTS attempts.
    let mut engine = fresh_engine();
    let mut attempts = 0u32;
    loop {
        engine.begin_attempt();
        attempts += 1;
        let failed = engine.on_require_sources();
        if failed {
            break;
        }
        assert!(attempts < MAX_ITEM_ATTEMPTS, "failed too late");
    }
    assert_eq!(attempts, MAX_ITEM_ATTEMPTS);
}

#[test]
fn require_dependencies_respects_attempt_bound() {
    let mut engine = fresh_engine();
    for _ in 0..MAX_ITEM_ATTEMPTS {
        engine.begin_attempt();
    }
    let failed = engine.on_require_dependencies(vec![(String::from("s"), String::from("t"))]);
    assert!(failed);
}

#[test]
fn needs_reimport_on_mtime_change() {
    let recorded = vec![(String::from("file:///a"), 100u64)];
    let same = vec![(String::from("file:///a"), Some(100u64))];
    let changed = vec![(String::from("file:///a"), Some(101u64))];
    let gone: Vec<(String, Option<u64>)> = vec![(String::from("file:///a"), None)];
    let missing: Vec<(String, Option<u64>)> = Vec::new();
    assert!(!needs_reimport(&recorded, &same));
    assert!(needs_reimport(&recorded, &changed));
    assert!(needs_reimport(&recorded, &gone));
    assert!(needs_reimport(&recorded, &missing));
    assert!(!needs_reimport(&Vec::new(), &missing));
}

#[test]
fn import_then_reimport_is_idempotent() {
    // The in-memory core of the import round trip: the first run imports
    // and records the asset; the second run finds the fresh record and
    // completes with the same id without any import.
    let source = String::from("file:///base/a.json");
    let target = String::from("foo");
    let mut meta = SourceMeta::new(source.clone());
    let output = b"{\n  \"k\": 1\n}".to_vec();

    // First store: no record yet, the importer runs, the record is added.
    let mut engine = Engine::new(source.clone(), None, target.clone());
    engine.begin_attempt();
    assert!(meta.get_asset(&target).is_none());
    let item = engine.pop_finished();
    let entries: Vec<DirEntry> = Vec::new();
    let (asset, placement) = AssetMeta::new(
        AssetId::new(77).unwrap(),
        item.format,
        item.sources,
        item.dependencies,
        &output,
        &entries,
    );
    assert!(!placement.dedup);
    let first_name = placement.name.clone();
    meta.add_asset(item.target, asset);

    // Second store: the record is found fresh and the call completes with
    // the recorded id; no importer is consulted.
    let mut engine = Engine::new(source, None, target.clone());
    engine.begin_attempt();
    let found = meta.get_asset(&target).expect("recorded asset");
    assert_eq!(found.artifact_name(), first_name);
    let done = engine.on_existing_asset(found.id(), found.artifact_name());
    let (id, name) = done.expect("must complete");
    assert_eq!(id.value(), 77);
    assert_eq!(name, first_name);
}

#[test]
fn identical_outputs_from_two_sources_share_one_artifact() {
    // Two distinct sources whose imports produce byte-identical outputs:
    // two distinct asset ids, one artifact file.
    let output = b"same bytes".to_vec();
    let mut dir: Vec<DirEntry> = Vec::new();

    let (asset_a, placement_a) = AssetMeta::new(
        AssetId::new(1).unwrap(),
        None,
        Vec::new(),
        Vec::new(),
        &output,
        &dir,
    );
    assert!(!placement_a.dedup);
    dir.push(DirEntry { name: placement_a.name.clone(), content: Some(output.clone()) });

    let (asset_b, placement_b) = AssetMeta::new(
        AssetId::new(2).unwrap(),
        None,
        Vec::new(),
        Vec::new(),
        &output,
        &dir,
    );
    assert!(placement_b.dedup, "the second copy is a duplicate");
    assert_eq!(placement_a.name, placement_b.name);
    assert_ne!(asset_a.id.value(), asset_b.id.value());
    assert_eq!(
        asset_a.artifact_path(&String::from("/t/a")),
        asset_b.artifact_path(&String::from("/t/a"))
    );
}
