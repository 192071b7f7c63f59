use treesnap::decode::DecodedContent;
use treesnap::render::{assemble, default_policy, extension_of, FileRecord};
use treesnap::walk::{Entry, EntryKind};

fn file_entry(rel_path: &str, name: &str, depth: usize) -> Entry {
    Entry { rel_path: rel_path.to_string(), name: name.to_string(), kind: EntryKind::File, depth }
}

fn dir_entry(rel_path: &str, name: &str, depth: usize) -> Entry {
    Entry {
        rel_path: rel_path.to_string(),
        name: name.to_string(),
        kind: EntryKind::Directory,
        depth,
    }
}

fn record(rel_path: &str, name: &str, content: DecodedContent) -> FileRecord {
    FileRecord { rel_path: rel_path.to_string(), name: name.to_string(), content }
}

#[test]
fn extension_is_what_follows_the_last_dot() {
    assert_eq!(extension_of("main.rs"), "rs");
    assert_eq!(extension_of("archive.tar.gz"), "gz");
}

#[test]
fn names_without_an_extension_get_an_empty_tag() {
    assert_eq!(extension_of("Makefile"), "");
    assert_eq!(extension_of(".gitignore"), "");
    assert_eq!(extension_of(""), "");
}

#[test]
fn a_trailing_dot_gives_an_empty_extension() {
    assert_eq!(extension_of("strange."), "");
}

#[test]
fn policy_excludes_the_output_and_reserved_names() {
    let policy = default_policy();
    assert!(!policy.is_included(&"project.md".to_string()));
    assert!(!policy.is_included(&"LICENSE".to_string()));
    assert!(!policy.is_included(&"README.md".to_string()));
    assert!(policy.is_included(&"main.rs".to_string()));
    assert!(policy.is_included(&"license".to_string()));
}

#[test]
fn one_text_file_renders_exactly() {
    let policy = default_policy();
    let entries = vec![file_entry("hello.txt", "hello.txt", 1)];
    let files = vec![record("hello.txt", "hello.txt", DecodedContent::Text("Hello".to_string()))];
    let doc = assemble(&policy, "root", &entries, &files);
    assert_eq!(
        doc,
        "## 1. Directory Tree\n\nroot/\n    hello.txt\n\n## 2. File Contents\n\n### hello.txt\n```txt\nHello\n```\n\n"
    );
}

#[test]
fn text_already_ending_in_a_newline_gets_no_second_one() {
    let policy = default_policy();
    let entries = vec![file_entry("a.rs", "a.rs", 1)];
    let files = vec![record("a.rs", "a.rs", DecodedContent::Text("fn a() {}\n".to_string()))];
    let doc = assemble(&policy, "r", &entries, &files);
    assert!(doc.contains("```rs\nfn a() {}\n```\n\n"));
    assert!(!doc.contains("fn a() {}\n\n```"));
}

#[test]
fn binary_content_renders_as_a_placeholder_without_raw_bytes() {
    let policy = default_policy();
    let entries = vec![file_entry("blob.bin", "blob.bin", 1)];
    let files = vec![record("blob.bin", "blob.bin", DecodedContent::Binary)];
    let doc = assemble(&policy, "r", &entries, &files);
    assert!(doc.contains("### blob.bin\n```bin\n(binary file)\n```\n\n"));
    assert!(!doc.bytes().any(|b| b == 0x00));
}

#[test]
fn unreadable_content_renders_its_reason() {
    let policy = default_policy();
    let entries = vec![file_entry("odd.dat", "odd.dat", 1)];
    let files = vec![
        record("odd.dat", "odd.dat", DecodedContent::Unreadable("no decoder fits".to_string())),
    ];
    let doc = assemble(&policy, "r", &entries, &files);
    assert!(doc.contains("```dat\n(unreadable: no decoder fits)\n```\n\n"));
}

#[test]
fn directories_show_indented_with_a_slash() {
    let policy = default_policy();
    let entries = vec![
        dir_entry("src", "src", 1),
        file_entry("src/main.rs", "main.rs", 2),
    ];
    let files = vec![record("src/main.rs", "main.rs", DecodedContent::Text("x".to_string()))];
    let doc = assemble(&policy, "proj", &entries, &files);
    assert!(doc.starts_with("## 1. Directory Tree\n\nproj/\n    src/\n        main.rs\n"));
    assert!(doc.contains("### src/main.rs\n```rs\nx\n```\n\n"));
}

#[test]
fn excluded_files_appear_in_neither_section() {
    let policy = default_policy();
    let entries = vec![
        file_entry("LICENSE", "LICENSE", 1),
        file_entry("a.txt", "a.txt", 1),
    ];
    let files = vec![
        record("LICENSE", "LICENSE", DecodedContent::Text("MIT".to_string())),
        record("a.txt", "a.txt", DecodedContent::Text("a".to_string())),
    ];
    let doc = assemble(&policy, "r", &entries, &files);
    assert!(!doc.contains("LICENSE"));
    assert!(!doc.contains("MIT"));
    assert!(doc.contains("a.txt"));
}

#[test]
fn assembling_twice_gives_identical_documents() {
    let policy = default_policy();
    let entries = vec![
        dir_entry("src", "src", 1),
        file_entry("src/lib.rs", "lib.rs", 2),
        file_entry("notes.txt", "notes.txt", 1),
    ];
    let files = vec![
        record("src/lib.rs", "lib.rs", DecodedContent::Text("pub fn f() {}\n".to_string())),
        record("notes.txt", "notes.txt", DecodedContent::Unreadable("bad bytes".to_string())),
    ];
    let first = assemble(&policy, "proj", &entries, &files);
    let second = assemble(&policy, "proj", &entries, &files);
    assert_eq!(first, second);
}

#[test]
fn a_run_with_one_unreadable_file_still_renders_the_others() {
    let policy = default_policy();
    let entries = vec![
        file_entry("bad.dat", "bad.dat", 1),
        file_entry("good.txt", "good.txt", 1),
    ];
    let files = vec![
        record("bad.dat", "bad.dat", DecodedContent::Unreadable("no encoding fits".to_string())),
        record("good.txt", "good.txt", DecodedContent::Text("fine".to_string())),
    ];
    let doc = assemble(&policy, "r", &entries, &files);
    assert!(doc.contains("(unreadable: no encoding fits)"));
    assert!(doc.contains("### good.txt\n```txt\nfine\n```\n\n"));
}
