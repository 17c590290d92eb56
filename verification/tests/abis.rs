use treasury::abi::{check_plugin, ensure_dependencies, ensure_sources, export_step,
    parse_record_list, sources_callback_step, version, CallbackStep, Dependency, ExportStep,
    ImportError, PluginCheckError, BUFFER_IS_TOO_SMALL, FFI_VERSION_MINOR, MAGIC, NOT_FOUND,
    NOT_UTF8, SUCCESS};

#[test]
fn dylib_magic_is_tres_little_endian() {
    assert_eq!(MAGIC, u32::from_le_bytes(*b"TRES"));
}

#[test]
fn matching_plugin_is_accepted() {
    assert!(check_plugin(MAGIC, version()).is_ok());
}

#[test]
fn version_mismatch_rejects_plugin() {
    // A plugin whose FFI version differs from the host's is not loaded.
    let r = check_plugin(MAGIC, FFI_VERSION_MINOR + 1);
    assert_eq!(r, Err(PluginCheckError::VersionMismatch));
}

#[test]
fn magic_mismatch_rejects_plugin() {
    let r = check_plugin(0, FFI_VERSION_MINOR);
    assert_eq!(r, Err(PluginCheckError::MagicMismatch));
}

#[test]
fn export_negotiation_grows_then_accepts() {
    match export_step(100, 64) {
        ExportStep::Grow { need } => assert_eq!(need, 100),
        _ => panic!("expected grow"),
    }
    match export_step(100, 100) {
        ExportStep::Done { count } => assert_eq!(count, 100),
        _ => panic!("expected done"),
    }
}

fn record_list(items: &[&[u8]]) -> Vec<u8> {
    let mut out = Vec::new();
    out.extend_from_slice(&(items.len() as u32).to_le_bytes());
    for item in items {
        out.extend_from_slice(&(item.len() as u32).to_le_bytes());
        out.extend_from_slice(item);
    }
    out
}

#[test]
fn record_list_parses() {
    let bytes = record_list(&[b"./b.bin", b"t2"]);
    let items = parse_record_list(&bytes).unwrap();
    assert_eq!(items, vec![b"./b.bin".to_vec(), b"t2".to_vec()]);
}

#[test]
fn empty_record_list_parses() {
    let bytes = record_list(&[]);
    let items = parse_record_list(&bytes).unwrap();
    assert!(items.is_empty());
}

#[test]
fn truncated_record_list_fails() {
    let mut bytes = record_list(&[b"abc"]);
    bytes.pop();
    assert!(parse_record_list(&bytes).is_none());
    assert!(parse_record_list(&vec![1, 0]).is_none());
}

#[test]
fn trailing_bytes_fail() {
    let mut bytes = record_list(&[b"abc"]);
    bytes.push(0);
    assert!(parse_record_list(&bytes).is_none());
}

#[test]
fn ensure_sources_reports_missing() {
    assert!(ensure_sources(Vec::new()).is_ok());
    match ensure_sources(vec![String::from("./x")]) {
        Err(ImportError::RequireSources { sources }) => {
            assert_eq!(sources, vec![String::from("./x")])
        }
        _ => panic!("expected source request"),
    }
}

#[test]
fn ensure_dependencies_reports_missing() {
    assert!(ensure_dependencies(Vec::new()).is_ok());
    let dep = Dependency { source: String::from("./b"), target: String::from("t2") };
    match ensure_dependencies(vec![dep]) {
        Err(ImportError::RequireDependencies { dependencies }) => {
            assert_eq!(dependencies.len(), 1);
            assert_eq!(dependencies[0].source, "./b");
            assert_eq!(dependencies[0].target, "t2");
        }
        _ => panic!("expected dependency request"),
    }
}

#[test]
fn callback_negotiation_steps() {
    assert!(matches!(
        sources_callback_step(SUCCESS, 12, 1024),
        CallbackStep::Done { len: 12 }
    ));
    assert!(matches!(
        sources_callback_step(BUFFER_IS_TOO_SMALL, 100, 1024),
        CallbackStep::Grow { need: 100 }
    ));
    assert!(matches!(
        sources_callback_step(BUFFER_IS_TOO_SMALL, 2048, 1024),
        CallbackStep::Failed
    ));
    assert!(matches!(sources_callback_step(NOT_FOUND, 0, 1024), CallbackStep::Missing));
    assert!(matches!(sources_callback_step(NOT_UTF8, 0, 1024), CallbackStep::NotUtf8));
    assert!(matches!(sources_callback_step(-9, 0, 1024), CallbackStep::Failed));
}
