use treesnap::decode::{decode_bytes, DecodedContent};
use treesnap::render::{assemble, default_policy, FileRecord};
use treesnap::walk::{ChildInfo, Entry, EntryKind, Walker};

fn child(name: &str, kind: EntryKind, ignored: bool) -> ChildInfo {
    ChildInfo { name: name.to_string(), kind, ignored }
}

// Walks an in-memory tree the way the tool drives the walker: each directory
// entry that comes out is answered with its listing.
fn walk_tree(root_listing: Vec<ChildInfo>, listings: &[(&str, Vec<ChildInfo>)]) -> Vec<Entry> {
    let mut walker = Walker::new();
    walker.enter("", 0, root_listing);
    let mut entries = Vec::new();
    while let Some(e) = walker.next() {
        if e.kind == EntryKind::Directory {
            let listing = listings
                .iter()
                .find(|(rel, _)| *rel == e.rel_path)
                .map(|(_, children)| children.clone())
                .unwrap_or_default();
            walker.enter(&e.rel_path, e.depth, listing);
        }
        entries.push(e);
    }
    entries
}

#[test]
fn an_ignored_directory_and_its_file_appear_in_neither_section() {
    let policy = default_policy();
    let root_listing = vec![
        child("build", EntryKind::Directory, true),
        child("keep.txt", EntryKind::File, false),
    ];
    // the listing of the ignored directory is on hand, but the walker never
    // yields the directory, so it is never consulted
    let listings = [("build", vec![child("inner.txt", EntryKind::File, false)])];
    let entries = walk_tree(root_listing, &listings);

    assert_eq!(entries.len(), 1);
    assert_eq!(entries[0].name, "keep.txt");

    let files: Vec<FileRecord> = entries
        .iter()
        .filter(|e| e.kind == EntryKind::File && policy.is_included(&e.name))
        .map(|e| FileRecord {
            rel_path: e.rel_path.clone(),
            name: e.name.clone(),
            content: decode_bytes(b"kept content"),
        })
        .collect();
    let doc = assemble(&policy, "proj", &entries, &files);

    assert!(!doc.contains("build"));
    assert!(!doc.contains("inner.txt"));
    assert!(doc.contains("keep.txt"));
    assert!(doc.contains("kept content"));
}

#[test]
fn a_small_tree_renders_end_to_end() {
    let policy = default_policy();
    let root_listing = vec![
        child("src", EntryKind::Directory, false),
        child("data.bin", EntryKind::File, false),
    ];
    let listings = [("src", vec![child("main.rs", EntryKind::File, false)])];
    let entries = walk_tree(root_listing, &listings);

    let mut files = Vec::new();
    for e in &entries {
        if e.kind == EntryKind::File && policy.is_included(&e.name) {
            let bytes: &[u8] = match e.name.as_str() {
                "main.rs" => b"fn main() {}\n",
                _ => &[0x00, 0x01, 0x02],
            };
            files.push(FileRecord {
                rel_path: e.rel_path.clone(),
                name: e.name.clone(),
                content: decode_bytes(bytes),
            });
        }
    }
    let doc = assemble(&policy, "proj", &entries, &files);
    assert_eq!(
        doc,
        "## 1. Directory Tree\n\nproj/\n    src/\n        main.rs\n    data.bin\n\n## 2. File Contents\n\n### src/main.rs\n```rs\nfn main() {}\n```\n\n### data.bin\n```bin\n(binary file)\n```\n\n"
    );
}

#[test]
fn running_the_pipeline_twice_is_byte_identical() {
    let policy1 = default_policy();
    let policy2 = default_policy();
    let make_entries = || {
        walk_tree(
            vec![
                child("src", EntryKind::Directory, false),
                child("a.txt", EntryKind::File, false),
            ],
            &[("src", vec![child("lib.rs", EntryKind::File, false)])],
        )
    };
    let make_files = |entries: &[Entry]| -> Vec<FileRecord> {
        entries
            .iter()
            .filter(|e| e.kind == EntryKind::File)
            .map(|e| FileRecord {
                rel_path: e.rel_path.clone(),
                name: e.name.clone(),
                content: decode_bytes("same bytes every run".as_bytes()),
            })
            .collect()
    };
    let entries1 = make_entries();
    let entries2 = make_entries();
    let doc1 = assemble(&policy1, "proj", &entries1, &make_files(&entries1));
    let doc2 = assemble(&policy2, "proj", &entries2, &make_files(&entries2));
    assert_eq!(doc1, doc2);
    assert_eq!(doc1.as_bytes(), doc2.as_bytes());
}

#[test]
fn the_outcome_of_one_file_is_independent_of_the_rest_of_the_run() {
    // the per-file pipeline is a pure function of the file's bytes
    let a = decode_bytes(b"Hello");
    let _ = decode_bytes(&[0xFF, 0xFE, 0x48, 0x00]);
    let b = decode_bytes(b"Hello");
    match (a, b) {
        (DecodedContent::Text(x), DecodedContent::Text(y)) => assert_eq!(x, y),
        _ => panic!("expected text from both runs"),
    }
}
