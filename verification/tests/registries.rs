use treasury::registry::{vec_contains_string, ImporterMeta, Importers};

fn importer(name: &str, formats: &[&str], extensions: &[&str], target: &str) -> ImporterMeta {
    ImporterMeta {
        name: name.to_string(),
        formats: formats.iter().map(|s| s.to_string()).collect(),
        extensions: extensions.iter().map(|s| s.to_string()).collect(),
        target: target.to_string(),
    }
}

#[test]
fn get_finds_format_and_target() {
    let mut reg = Importers::new();
    reg.register_importer(importer("a", &["p"], &["json"], "bar"));
    reg.register_importer(importer("b", &["q"], &["bin"], "bar"));
    assert_eq!(reg.get("p", "bar"), Some(0));
    assert_eq!(reg.get("q", "bar"), Some(1));
    assert_eq!(reg.get("p", "baz"), None);
    assert_eq!(reg.get("r", "bar"), None);
}

#[test]
fn earlier_registration_wins() {
    let mut reg = Importers::new();
    reg.register_importer(importer("first", &["p"], &["json"], "bar"));
    reg.register_importer(importer("second", &["p"], &["json"], "bar"));
    assert_eq!(reg.get("p", "bar"), Some(0));
    assert!(matches!(reg.guess(Some("json"), "bar"), Ok(Some(0))));
}

#[test]
fn guess_by_extension() {
    let mut reg = Importers::new();
    reg.register_importer(importer("a", &["p"], &["json"], "bar"));
    reg.register_importer(importer("b", &["q"], &["bin"], "bar"));
    assert!(matches!(reg.guess(Some("bin"), "bar"), Ok(Some(1))));
    assert!(matches!(reg.guess(Some("png"), "bar"), Ok(None)));
}

#[test]
fn guess_single_importer_without_extension() {
    let mut reg = Importers::new();
    reg.register_importer(importer("a", &["p"], &["json"], "bar"));
    assert!(matches!(reg.guess(None, "bar"), Ok(Some(0))));
}

#[test]
fn guess_unknown_target_is_none() {
    let reg = Importers::new();
    assert!(matches!(reg.guess(None, "bar"), Ok(None)));
    assert!(matches!(reg.guess(Some("json"), "bar"), Ok(None)));
}

#[test]
fn ambiguous_guess_lists_candidate_formats() {
    // Two importers serving one target and no extension to decide by: the
    // error names exactly their source formats.
    let mut reg = Importers::new();
    reg.register_importer(importer("a", &["p"], &["json"], "bar"));
    reg.register_importer(importer("b", &["q"], &["bin"], "bar"));
    let err = match reg.guess(None, "bar") {
        Err(e) => e,
        Ok(_) => panic!("expected ambiguity"),
    };
    assert_eq!(err.target, "bar");
    assert_eq!(err.formats.len(), 2);
    assert!(vec_contains_string(&err.formats, "p"));
    assert!(vec_contains_string(&err.formats, "q"));
}

#[test]
fn ambiguous_guess_deduplicates_formats() {
    let mut reg = Importers::new();
    reg.register_importer(importer("a", &["p", "q"], &[], "bar"));
    reg.register_importer(importer("b", &["q"], &[], "bar"));
    let err = match reg.guess(None, "bar") {
        Err(e) => e,
        Ok(_) => panic!("expected ambiguity"),
    };
    assert_eq!(err.formats.len(), 2);
    assert!(vec_contains_string(&err.formats, "p"));
    assert!(vec_contains_string(&err.formats, "q"));
}

#[test]
fn importer_accessor_reads_back() {
    let mut reg = Importers::new();
    reg.register_importer(importer("a", &["p"], &["json"], "bar"));
    assert_eq!(reg.len(), 1);
    let it = reg.importer(0);
    assert_eq!(it.name, "a");
    assert_eq!(it.target, "bar");
}
