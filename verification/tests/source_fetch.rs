use treasury::sources::{b64_decode_url_safe, b64_encode_url_safe, decode_data_payload,
    fetch_plan, FetchPlan, Sources, Temporaries};
use treasury::urls::{join_url, parse_url, url_ext, url_scheme};

#[test]
fn scheme_reader() {
    assert_eq!(url_scheme("file:///a/b"), "file");
    assert_eq!(url_scheme("data:,hello"), "data");
    assert_eq!(url_scheme("https://x"), "https");
    assert_eq!(url_scheme("no-colon-here"), "no-colon-here");
}

#[test]
fn fetch_plan_file_urls() {
    assert!(matches!(fetch_plan("file:///a/b.json"), FetchPlan::File));
}

#[test]
fn fetch_plan_plain_data_url() {
    // A plain data URL carries its payload verbatim.
    match fetch_plan("data:,hello") {
        FetchPlan::Data { base64, payload } => {
            assert!(!base64);
            assert_eq!(payload, "hello");
            let bytes = decode_data_payload(base64, &payload).unwrap();
            assert_eq!(bytes, b"hello".to_vec());
        }
        _ => panic!("expected data plan"),
    }
}

#[test]
fn fetch_plan_base64_data_url() {
    // The same content in URL-safe Base64 decodes to the same bytes.
    match fetch_plan("data:;base64,aGVsbG8") {
        FetchPlan::Data { base64, payload } => {
            assert!(base64);
            assert_eq!(payload, "aGVsbG8");
            let bytes = decode_data_payload(base64, &payload).unwrap();
            assert_eq!(bytes, b"hello".to_vec());
        }
        _ => panic!("expected data plan"),
    }
}

#[test]
fn fetch_plan_bad_base64_fails() {
    assert!(decode_data_payload(true, "!!!").is_none());
}

#[test]
fn fetch_plan_unsupported_scheme() {
    match fetch_plan("gopher://x") {
        FetchPlan::Unsupported { scheme } => assert_eq!(scheme, "gopher"),
        _ => panic!("expected unsupported"),
    }
}

#[test]
fn fetch_plan_data_url_without_comma() {
    assert!(matches!(
        fetch_plan("data:nocomma"),
        FetchPlan::Unsupported { .. }
    ));
}

#[test]
fn base64_wrappers_round_trip() {
    let data = vec![0u8, 255, 7, 42];
    let text = b64_encode_url_safe(&data);
    let back = b64_decode_url_safe(&text).unwrap();
    assert_eq!(back, data);
}

#[test]
fn sources_cache_records_fetches() {
    let mut cache = Sources::new();
    assert!(cache.get("file:///a").is_none());
    cache.insert(
        String::from("file:///a"),
        String::from("/a"),
        Some(99),
    );
    let (path, modified) = cache.get("file:///a").unwrap();
    assert_eq!(path, "/a");
    assert_eq!(modified, Some(99));
    assert!(cache.get("file:///b").is_none());
}

#[test]
fn temporaries_allocate_distinct_names() {
    let mut temps = Temporaries::new(String::from("/tmp/treasury"));
    let a = temps.make_temporary();
    let b = temps.make_temporary();
    assert_ne!(a, b);
    assert!(a.starts_with("/tmp/treasury/"));
    // 128 random bits render as 22 Base64 characters.
    assert_eq!(a.len(), "/tmp/treasury/".len() + 22);
}

#[test]
fn url_join_and_parse() {
    let base = parse_url("file:///base/dir/a.json").unwrap();
    assert_eq!(base, "file:///base/dir/a.json");
    let joined = join_url(&base, "./b.bin").unwrap();
    assert_eq!(joined, "file:///base/dir/b.bin");
    assert!(parse_url("not a url").is_none());
    assert!(join_url("file:///base/", "http://other/x").unwrap() == "http://other/x");
}

#[test]
fn url_extension_reader() {
    assert_eq!(url_ext("/a/b/model.json"), Some("json"));
    assert_eq!(url_ext("/a/b/noext"), None);
    assert_eq!(url_ext("/a.d/file"), None);
    assert_eq!(url_ext("/a/.hidden"), None);
    assert_eq!(url_ext("relative.txt"), None);
}
