//! Document assembler: the inclusion policy, file-extension tags, and the
//! rendering of the two-section snapshot document.
//!
//! The document is a tree section — one indented line per entry, directories
//! suffixed with a slash, the root on top — followed by a contents section
//! with, for every included file in tree order, a heading naming its relative
//! path and a fenced block tagged with its extension. Text content goes in
//! verbatim with a guaranteed trailing newline before the closing fence;
//! binary and unreadable content render as their placeholder line. Files the
//! inclusion policy rejects are left out of both sections; directories always
//! show, to keep the structural context.

use vstd::prelude::*;
use vstd::string::*;

use crate::decode::{content_eq, DecodedContent};
use crate::walk::{Entry, EntryKind};

verus! {

/// The inclusion policy: a file takes part in the output unless its name is
/// the tool's own output file or one of the reserved names.
pub struct Policy {
    pub output_name: String,
    pub reserved: Vec<String>,
}

/// True when the policy lets a file of this name into the document.
pub open spec fn included(p: Policy, name: Seq<char>) -> bool {
    &&& name != p.output_name@
    &&& forall|i: int| 0 <= i < p.reserved@.len() ==> name != #[trigger] p.reserved@[i]@
}

impl Policy {
    /// Decides whether a file of this name takes part in the output.
    pub fn is_included(&self, name: &String) -> (r: bool)
        ensures
            r == included(*self, name@),
    {
        if name.eq(&self.output_name) {
            return false;
        }
        let mut i: usize = 0;
        while i < self.reserved.len()
            invariant
                i <= self.reserved@.len(),
                name@ != self.output_name@,
                forall|j: int| 0 <= j < i ==> name@ != #[trigger] self.reserved@[j]@,
            decreases self.reserved@.len() - i,
        {
            if name.eq(&self.reserved[i]) {
                return false;
            }
            i = i + 1;
        }
        true
    }
}

/// The policy the tool runs with: the snapshot file itself plus the usual
/// reserved project files are kept out of the document.
pub fn default_policy() -> (r: Policy)
    ensures
        r.output_name@ == "project.md"@,
        r.reserved@.len() == 2,
        r.reserved@[0]@ == "LICENSE"@,
        r.reserved@[1]@ == "README.md"@,
{
    let mut reserved: Vec<String> = Vec::new();
    reserved.push(String::from_str("LICENSE"));
    reserved.push(String::from_str("README.md"));
    Policy { output_name: String::from_str("project.md"), reserved }
}

/// Index of the last dot in a file name, or -1 when there is none.
pub open spec fn last_dot(name: Seq<char>) -> int
    decreases name.len(),
{
    if name.len() == 0 {
        -1
    } else if name.last() == '.' {
        name.len() - 1
    } else {
        last_dot(name.drop_last())
    }
}

/// The extension used as the fence's language tag: what follows the last dot
/// of the file name, empty when there is no dot or only a leading one.
pub open spec fn spec_extension(name: Seq<char>) -> Seq<char> {
    if last_dot(name) > 0 {
        name.skip(last_dot(name) + 1)
    } else {
        Seq::empty()
    }
}

/// The extension of a file name, per [`spec_extension`].
pub fn extension_of(name: &str) -> (r: String)
    ensures
        r@ == spec_extension(name@),
{
    let n = name.unicode_len();
    let mut k = n;
    proof {
        assert(name@.take(n as int) =~= name@);
    }
    while k > 0
        invariant
            k <= n,
            n == name@.len(),
            last_dot(name@) == last_dot(name@.take(k as int)),
        decreases k,
    {
        let c = name.get_char(k - 1);
        proof {
            assert(name@.take(k as int).last() == name@[k - 1]);
            assert(name@.take(k as int).drop_last() =~= name@.take(k - 1));
        }
        if c == '.' {
            if k - 1 > 0 {
                let ext = name.substring_char(k, n);
                proof {
                    assert(ext@ =~= spec_extension(name@));
                }
                return String::from_str(ext);
            }
            return String::new();
        }
        k = k - 1;
    }
    proof {
        assert(name@.take(0) =~= Seq::<char>::empty());
    }
    String::new()
}

/// The indentation of an entry: one fixed unit per depth level.
pub open spec fn indent_chars(depth: nat) -> Seq<char>
    decreases depth,
{
    if depth == 0 {
        Seq::empty()
    } else {
        indent_chars((depth - 1) as nat) + "    "@
    }
}

/// One line of the tree section: indentation, the entry's name, and a slash
/// marker on directories.
pub open spec fn tree_line(e: Entry) -> Seq<char> {
    indent_chars(e.depth as nat) + e.name@ + (if e.kind == EntryKind::Directory {
        "/\n"@
    } else {
        "\n"@
    })
}

/// True when an entry gets a tree line: directories always, files only when
/// the policy includes them.
pub open spec fn shows_in_tree(p: Policy, e: Entry) -> bool {
    e.kind == EntryKind::Directory || included(p, e.name@)
}

/// The tree lines for a sequence of entries, in order.
pub open spec fn tree_lines(p: Policy, entries: Seq<Entry>) -> Seq<char>
    decreases entries.len(),
{
    if entries.len() == 0 {
        Seq::empty()
    } else {
        tree_lines(p, entries.drop_last()) + if shows_in_tree(p, entries.last()) {
            tree_line(entries.last())
        } else {
            Seq::empty()
        }
    }
}

/// The whole tree section: its heading, the root's own line, then one line
/// per shown entry.
pub open spec fn tree_section(p: Policy, root_name: Seq<char>, entries: Seq<Entry>) -> Seq<char> {
    "## 1. Directory Tree\n\n"@ + root_name + "/\n"@ + tree_lines(p, entries)
}

/// Text content as it goes between the fences: verbatim, with a newline
/// appended exactly when it does not already end in one.
pub open spec fn rendered_text(t: Seq<char>) -> Seq<char> {
    if t.len() > 0 && t.last() == '\n' {
        t
    } else {
        t + "\n"@
    }
}

/// What stands between the fences for each content outcome: the text itself,
/// or a placeholder line that embeds no raw bytes.
pub open spec fn content_body(c: DecodedContent) -> Seq<char> {
    match c {
        DecodedContent::Text(t) => rendered_text(t@),
        DecodedContent::Binary => "(binary file)\n"@,
        DecodedContent::Unreadable(m) => "(unreadable: "@ + m@ + ")\n"@,
    }
}

/// One file of the contents section: a heading with its relative path, a
/// fence tagged with its extension, the rendered content, and the closing
/// fence with a blank separator line.
pub open spec fn file_block(rel: Seq<char>, ext: Seq<char>, c: DecodedContent) -> Seq<char> {
    "### "@ + rel + "\n```"@ + ext + "\n"@ + content_body(c) + "```\n\n"@
}

/// One file handed to the assembler: where it sits, what it is called, and
/// what its bytes resolved to.
pub struct FileRecord {
    pub rel_path: String,
    pub name: String,
    pub content: DecodedContent,
}

/// The block a record renders to.
pub open spec fn record_block(r: FileRecord) -> Seq<char> {
    file_block(r.rel_path@, spec_extension(r.name@), r.content)
}

/// The blocks of all included records, in order.
pub open spec fn content_blocks(p: Policy, files: Seq<FileRecord>) -> Seq<char>
    decreases files.len(),
{
    if files.len() == 0 {
        Seq::empty()
    } else {
        content_blocks(p, files.drop_last()) + if included(p, files.last().name@) {
            record_block(files.last())
        } else {
            Seq::empty()
        }
    }
}

/// The whole contents section: its heading, then the included files' blocks.
pub open spec fn contents_section(p: Policy, files: Seq<FileRecord>) -> Seq<char> {
    "\n## 2. File Contents\n\n"@ + content_blocks(p, files)
}

/// The whole document: tree section, then contents section.
pub open spec fn document(
    p: Policy,
    root_name: Seq<char>,
    entries: Seq<Entry>,
    files: Seq<FileRecord>,
) -> Seq<char> {
    tree_section(p, root_name, entries) + contents_section(p, files)
}

fn push_indent(out: &mut String, depth: usize)
    ensures
        final(out)@ == old(out)@ + indent_chars(depth as nat),
{
    let mut d: usize = 0;
    proof {
        assert(old(out)@ + indent_chars(0) =~= old(out)@);
    }
    while d < depth
        invariant
            d <= depth,
            out@ == old(out)@ + indent_chars(d as nat),
        decreases depth - d,
    {
        out.append("    ");
        d = d + 1;
    }
}

/// Renders the tree section for the given root name and entries.
pub fn render_tree(p: &Policy, root_name: &str, entries: &Vec<Entry>) -> (r: String)
    ensures
        r@ == tree_section(*p, root_name@, entries@),
{
    let mut out = String::from_str("## 1. Directory Tree\n\n");
    out.append(root_name);
    out.append("/\n");
    let mut i: usize = 0;
    while i < entries.len()
        invariant
            i <= entries@.len(),
            out@ == "## 1. Directory Tree\n\n"@ + root_name@ + "/\n"@ + tree_lines(
                *p,
                entries@.take(i as int),
            ),
        decreases entries@.len() - i,
    {
        let e = &entries[i];
        let show = match e.kind {
            EntryKind::Directory => true,
            EntryKind::File => p.is_included(&e.name),
        };
        if show {
            push_indent(&mut out, e.depth);
            out.append(e.name.as_str());
            match e.kind {
                EntryKind::Directory => out.append("/\n"),
                EntryKind::File => out.append("\n"),
            }
        }
        proof {
            assert(entries@.take(i + 1).drop_last() =~= entries@.take(i as int));
            assert(entries@.take(i + 1).last() == entries@[i as int]);
        }
        i = i + 1;
    }
    proof {
        assert(entries@.take(entries@.len() as int) =~= entries@);
    }
    out
}

/// Renders the contents section for the given records.
#[verifier::rlimit(30)]
pub fn render_contents(p: &Policy, files: &Vec<FileRecord>) -> (r: String)
    ensures
        r@ == contents_section(*p, files@),
{
    let mut out = String::from_str("\n## 2. File Contents\n\n");
    let mut i: usize = 0;
    while i < files.len()
        invariant
            i <= files@.len(),
            out@ == "\n## 2. File Contents\n\n"@ + content_blocks(*p, files@.take(i as int)),
        decreases files@.len() - i,
    {
        let f = &files[i];
        if p.is_included(&f.name) {
            out.append("### ");
            out.append(f.rel_path.as_str());
            out.append("\n```");
            let ext = extension_of(f.name.as_str());
            out.append(ext.as_str());
            out.append("\n");
            match &f.content {
                DecodedContent::Text(t) => {
                    out.append(t.as_str());
                    let tn = t.as_str().unicode_len();
                    if tn == 0 || t.as_str().get_char(tn - 1) != '\n' {
                        out.append("\n");
                    }
                },
                DecodedContent::Binary => {
                    out.append("(binary file)\n");
                },
                DecodedContent::Unreadable(m) => {
                    out.append("(unreadable: ");
                    out.append(m.as_str());
                    out.append(")\n");
                },
            }
            out.append("```\n\n");
        }
        proof {
            assert(files@.take(i + 1).drop_last() =~= files@.take(i as int));
            assert(files@.take(i + 1).last() == files@[i as int]);
        }
        i = i + 1;
    }
    proof {
        assert(files@.take(files@.len() as int) =~= files@);
    }
    out
}

/// Assembles the whole document from the traversal's entries and the
/// per-file outcomes.
pub fn assemble(p: &Policy, root_name: &str, entries: &Vec<Entry>, files: &Vec<FileRecord>) -> (r:
    String)
    ensures
        r@ == document(*p, root_name@, entries@, files@),
{
    let mut out = render_tree(p, root_name, entries);
    let contents = render_contents(p, files);
    out.append(contents.as_str());
    out
}

/// True when two policies read the same.
pub open spec fn policy_eq(a: Policy, b: Policy) -> bool {
    &&& a.output_name@ == b.output_name@
    &&& a.reserved@.len() == b.reserved@.len()
    &&& forall|i: int| 0 <= i < a.reserved@.len() ==> #[trigger] a.reserved@[i]@ == b.reserved@[i]@
}

/// True when two entries read the same.
pub open spec fn entry_eq(a: Entry, b: Entry) -> bool {
    &&& a.rel_path@ == b.rel_path@
    &&& a.name@ == b.name@
    &&& a.kind == b.kind
    &&& a.depth == b.depth
}

/// True when two file records read the same.
pub open spec fn record_eq(a: FileRecord, b: FileRecord) -> bool {
    &&& a.rel_path@ == b.rel_path@
    &&& a.name@ == b.name@
    &&& content_eq(a.content, b.content)
}

proof fn lemma_included_eq(p1: Policy, p2: Policy, name: Seq<char>)
    requires
        policy_eq(p1, p2),
    ensures
        included(p1, name) == included(p2, name),
{
    if included(p1, name) {
        assert forall|i: int| 0 <= i < p2.reserved@.len() implies name != #[trigger] p2.reserved@[i]@ by {
            assert(p1.reserved@[i]@ == p2.reserved@[i]@);
            assert(name != p1.reserved@[i]@);
        }
    }
    if included(p2, name) {
        assert forall|i: int| 0 <= i < p1.reserved@.len() implies name != #[trigger] p1.reserved@[i]@ by {
            assert(p1.reserved@[i]@ == p2.reserved@[i]@);
            assert(name != p2.reserved@[i]@);
        }
    }
}

proof fn lemma_tree_lines_eq(p1: Policy, p2: Policy, e1: Seq<Entry>, e2: Seq<Entry>)
    requires
        policy_eq(p1, p2),
        e1.len() == e2.len(),
        forall|i: int| 0 <= i < e1.len() ==> entry_eq(#[trigger] e1[i], e2[i]),
    ensures
        tree_lines(p1, e1) == tree_lines(p2, e2),
    decreases e1.len(),
{
    if e1.len() > 0 {
        assert forall|i: int| 0 <= i < e1.drop_last().len() implies entry_eq(
            #[trigger] e1.drop_last()[i],
            e2.drop_last()[i],
        ) by {
            assert(entry_eq(e1[i], e2[i]));
        }
        lemma_tree_lines_eq(p1, p2, e1.drop_last(), e2.drop_last());
        assert(entry_eq(e1[e1.len() - 1], e2[e2.len() - 1]));
        lemma_included_eq(p1, p2, e1.last().name@);
    }
}

proof fn lemma_content_blocks_eq(p1: Policy, p2: Policy, f1: Seq<FileRecord>, f2: Seq<FileRecord>)
    requires
        policy_eq(p1, p2),
        f1.len() == f2.len(),
        forall|i: int| 0 <= i < f1.len() ==> record_eq(#[trigger] f1[i], f2[i]),
    ensures
        content_blocks(p1, f1) == content_blocks(p2, f2),
    decreases f1.len(),
{
    if f1.len() > 0 {
        assert forall|i: int| 0 <= i < f1.drop_last().len() implies record_eq(
            #[trigger] f1.drop_last()[i],
            f2.drop_last()[i],
        ) by {
            assert(record_eq(f1[i], f2[i]));
        }
        lemma_content_blocks_eq(p1, p2, f1.drop_last(), f2.drop_last());
        assert(record_eq(f1[f1.len() - 1], f2[f2.len() - 1]));
        lemma_included_eq(p1, p2, f1.last().name@);
    }
}

/// Assembling the document is a pure function of what its inputs read as:
/// two runs over a policy, root name, entry sequence and per-file outcomes
/// that read the same produce character-identical documents. With the
/// per-file outcomes themselves functions of each file's bytes, running the
/// pipeline twice over an unmodified tree reproduces the document exactly.
pub proof fn lemma_document_deterministic(
    p1: Policy,
    p2: Policy,
    root1: Seq<char>,
    root2: Seq<char>,
    e1: Seq<Entry>,
    e2: Seq<Entry>,
    f1: Seq<FileRecord>,
    f2: Seq<FileRecord>,
)
    requires
        policy_eq(p1, p2),
        root1 == root2,
        e1.len() == e2.len(),
        forall|i: int| 0 <= i < e1.len() ==> entry_eq(#[trigger] e1[i], e2[i]),
        f1.len() == f2.len(),
        forall|i: int| 0 <= i < f1.len() ==> record_eq(#[trigger] f1[i], f2[i]),
    ensures
        document(p1, root1, e1, f1) == document(p2, root2, e2, f2),
{
    lemma_tree_lines_eq(p1, p2, e1, e2);
    lemma_content_blocks_eq(p1, p2, f1, f2);
}

} // verus!
