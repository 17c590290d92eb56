use treasury::hash::HashSha256;
use treasury::placement::{bytes_eq, find_artifact_slot, find_meta_slot, string_eq_str,
    u64_to_dec, DirEntry, MetaDirEntry};

fn hex_of(content: &[u8]) -> String {
    HashSha256::new(content).to_hex()
}

#[test]
fn decimal_rendering() {
    assert_eq!(u64_to_dec(0), "0");
    assert_eq!(u64_to_dec(7), "7");
    assert_eq!(u64_to_dec(12345), "12345");
    assert_eq!(u64_to_dec(1000), "1000");
}

#[test]
fn bytes_eq_compares_contents() {
    assert!(bytes_eq(&vec![1, 2, 3], &vec![1, 2, 3]));
    assert!(!bytes_eq(&vec![1, 2, 3], &vec![1, 2, 4]));
    assert!(!bytes_eq(&vec![1, 2], &vec![1, 2, 3]));
    assert!(bytes_eq(&vec![], &vec![]));
}

#[test]
fn string_eq_str_compares_views() {
    assert!(string_eq_str(&String::from("abc"), "abc"));
    assert!(!string_eq_str(&String::from("abc"), "abd"));
    assert!(!string_eq_str(&String::from("ab"), "abc"));
}

#[test]
fn fresh_directory_places_first_prefix() {
    // On a fresh artifacts directory the first candidate wins: the 8-digit
    // prefix, suffix zero, no dedup.
    let output = vec![1u8, 2, 3];
    let hexs = hex_of(&output);
    let entries: Vec<DirEntry> = Vec::new();
    let p = find_artifact_slot(&entries, &hexs, &output);
    assert_eq!(p.index, 0);
    assert_eq!(p.prefix, 8);
    assert_eq!(p.suffix, 0);
    assert_eq!(p.name, &hexs[..8]);
    assert!(!p.dedup);
}

#[test]
fn distinct_outputs_get_distinct_names() {
    let out1 = vec![1u8];
    let out2 = vec![2u8];
    let hex1 = hex_of(&out1);
    let hex2 = hex_of(&out2);
    let mut entries: Vec<DirEntry> = Vec::new();
    let p1 = find_artifact_slot(&entries, &hex1, &out1);
    entries.push(DirEntry { name: p1.name.clone(), content: Some(out1.clone()) });
    let p2 = find_artifact_slot(&entries, &hex2, &out2);
    assert_ne!(p1.name, p2.name);
    assert_eq!(p2.prefix, 8);
}

#[test]
fn identical_content_deduplicates() {
    // The second placement of byte-identical content lands on the same
    // file and reports the new copy as a duplicate.
    let output = vec![9u8, 9, 9];
    let hexs = hex_of(&output);
    let mut entries: Vec<DirEntry> = Vec::new();
    let p1 = find_artifact_slot(&entries, &hexs, &output);
    assert!(!p1.dedup);
    entries.push(DirEntry { name: p1.name.clone(), content: Some(output.clone()) });
    let p2 = find_artifact_slot(&entries, &hexs, &output);
    assert!(p2.dedup);
    assert_eq!(p2.name, p1.name);
    assert_eq!(p2.index, 0);
}

#[test]
fn prefix_collision_extends_prefix() {
    // A different file occupying the 8-digit prefix pushes the new
    // artifact to the 9-digit prefix, never to a suffixed name.
    let output = vec![5u8, 5];
    let hexs = hex_of(&output);
    let entries = vec![DirEntry { name: hexs[..8].to_string(), content: Some(vec![0u8]) }];
    let p = find_artifact_slot(&entries, &hexs, &output);
    assert_eq!(p.index, 1);
    assert_eq!(p.prefix, 9);
    assert_eq!(p.suffix, 0);
    assert_eq!(p.name, &hexs[..9]);
    assert!(!p.dedup);
}

#[test]
fn non_file_entries_collide() {
    let output = vec![7u8];
    let hexs = hex_of(&output);
    let entries = vec![DirEntry { name: hexs[..8].to_string(), content: None }];
    let p = find_artifact_slot(&entries, &hexs, &output);
    assert_eq!(p.prefix, 9);
}

#[test]
fn exhausted_prefixes_use_suffixes() {
    // With every prefix length occupied by different content, the first
    // suffixed candidate wins: the full hex with `:0`.
    let output = vec![3u8, 1, 4];
    let hexs = hex_of(&output);
    let mut entries: Vec<DirEntry> = Vec::new();
    for len in 8..=64 {
        entries.push(DirEntry { name: hexs[..len].to_string(), content: Some(vec![0u8]) });
    }
    let p = find_artifact_slot(&entries, &hexs, &output);
    assert_eq!(p.name, format!("{}:0", hexs));
    assert_eq!(p.prefix, 64);
    assert_eq!(p.suffix, 0);
}

#[test]
fn meta_slot_fresh_directory() {
    let url = String::from("data:,hello");
    let entries: Vec<MetaDirEntry> = Vec::new();
    let slot = find_meta_slot(&entries, &hex_of(url.as_bytes()), &url);
    assert_eq!(slot.index, 0);
    assert!(!slot.existing);
    assert_eq!(slot.name.len(), 8);
}

#[test]
fn meta_slot_finds_existing_url() {
    let url = String::from("data:,hello");
    let hexs = hex_of(url.as_bytes());
    let entries = vec![MetaDirEntry { name: hexs[..8].to_string(), url: Some(url.clone()) }];
    let slot = find_meta_slot(&entries, &hexs, &url);
    assert!(slot.existing);
    assert_eq!(slot.name, &hexs[..8]);
}

#[test]
fn meta_slot_skips_other_urls() {
    let url = String::from("data:,hello");
    let hexs = hex_of(url.as_bytes());
    let entries = vec![MetaDirEntry {
        name: hexs[..8].to_string(),
        url: Some(String::from("data:,other")),
    }];
    let slot = find_meta_slot(&entries, &hexs, &url);
    assert!(!slot.existing);
    assert_eq!(slot.name, &hexs[..9]);
}
