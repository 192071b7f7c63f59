use treesnap::walk::{name_le, sort_children, ChildInfo, Entry, EntryKind, Walker};

fn child(name: &str, kind: EntryKind, ignored: bool) -> ChildInfo {
    ChildInfo { name: name.to_string(), kind, ignored }
}

fn drain(walker: &mut Walker) -> Vec<Entry> {
    let mut out = Vec::new();
    while let Some(e) = walker.next() {
        out.push(e);
    }
    out
}

#[test]
fn children_pop_in_listing_order() {
    let mut walker = Walker::new();
    walker.enter(
        "",
        0,
        vec![
            child("a.txt", EntryKind::File, false),
            child("b.txt", EntryKind::File, false),
            child("c.txt", EntryKind::File, false),
        ],
    );
    let names: Vec<String> = drain(&mut walker).into_iter().map(|e| e.name).collect();
    assert_eq!(names, ["a.txt", "b.txt", "c.txt"]);
}

#[test]
fn walk_is_depth_first_with_relative_paths() {
    let mut walker = Walker::new();
    walker.enter(
        "",
        0,
        vec![
            child("src", EntryKind::Directory, false),
            child("zz.txt", EntryKind::File, false),
        ],
    );

    let first = walker.next().expect("first entry");
    assert_eq!(first.name, "src");
    assert_eq!(first.rel_path, "src");
    assert_eq!(first.kind, EntryKind::Directory);
    assert_eq!(first.depth, 1);

    walker.enter(&first.rel_path, first.depth, vec![child("main.rs", EntryKind::File, false)]);

    let second = walker.next().expect("second entry");
    assert_eq!(second.rel_path, "src/main.rs");
    assert_eq!(second.name, "main.rs");
    assert_eq!(second.kind, EntryKind::File);
    assert_eq!(second.depth, 2);

    let third = walker.next().expect("third entry");
    assert_eq!(third.rel_path, "zz.txt");
    assert_eq!(third.depth, 1);

    assert!(walker.next().is_none());
}

#[test]
fn ignored_children_never_enter_the_walk() {
    let mut walker = Walker::new();
    walker.enter(
        "",
        0,
        vec![
            child("node_modules", EntryKind::Directory, true),
            child("a.txt", EntryKind::File, false),
            child("secret.log", EntryKind::File, true),
        ],
    );
    let names: Vec<String> = drain(&mut walker).into_iter().map(|e| e.name).collect();
    assert_eq!(names, ["a.txt"]);
}

#[test]
fn a_fresh_walker_yields_nothing() {
    let mut walker = Walker::new();
    assert!(walker.next().is_none());
}

#[test]
fn name_order_is_lexicographic() {
    assert!(name_le("abc", "abd"));
    assert!(!name_le("abd", "abc"));
    assert!(name_le("ab", "abc"));
    assert!(!name_le("abc", "ab"));
    assert!(name_le("same", "same"));
    assert!(name_le("Makefile", "main.rs"));
    assert!(name_le("naïf", "naïve"));
}

#[test]
fn listings_sort_by_name() {
    let listing = vec![
        child("zeta.rs", EntryKind::File, false),
        child("alpha", EntryKind::Directory, false),
        child("mid.txt", EntryKind::File, true),
    ];
    let sorted = sort_children(listing);
    let names: Vec<&str> = sorted.iter().map(|c| c.name.as_str()).collect();
    assert_eq!(names, ["alpha", "mid.txt", "zeta.rs"]);
    assert!(sorted[1].ignored);
}

#[test]
fn a_sorted_listing_walks_in_name_order() {
    let mut walker = Walker::new();
    let listing = sort_children(vec![
        child("c.txt", EntryKind::File, false),
        child("a.txt", EntryKind::File, false),
        child("b.txt", EntryKind::File, false),
    ]);
    walker.enter("", 0, listing);
    let names: Vec<String> = drain(&mut walker).into_iter().map(|e| e.name).collect();
    assert_eq!(names, ["a.txt", "b.txt", "c.txt"]);
}
