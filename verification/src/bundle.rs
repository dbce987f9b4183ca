//! The bundle codec: which entries of a directory tree go into an archive
//! and under which names, and how a single file is wrapped.

use vstd::prelude::*;
use crate::archive::{
    appended, archive_add_directory, archive_entries, archive_finish, archive_new, archive_open,
    entry_limit, takes, Stamp,
    archive_start_file, archive_write, base64_encode, base64_text, directory_name, encodable,
    zip_image, Entry,
};
use crate::arrange::{
    arrange, arranged, lemma_arranged_any_walk, lemma_arranged_len, lemma_arranged_same,
    one_path_each, picked, same_entries,
};
use crate::error::SyncError;
use crate::policy::{excluded, excluded_normalized, has_segment, listed, normalized};
use crate::text::{
    chars_of, occurs_at_exec, starts_with, string_of,
    string_of_range,
};

verus! {

/// What a tree entry is.
#[derive(Debug, Clone, Copy, PartialEq, Eq, Structural)]
pub enum EntryKind {
    File,
    Directory,
}

/// One entry found under the root, with the bytes of a file.
#[derive(Debug, Clone)]
pub struct TreeEntry {
    pub path: String,
    pub kind: EntryKind,
    pub content: Vec<u8>,
}

/// What a walk of the root gave.
#[derive(Debug, Clone)]
pub struct TreeSnapshot {
    pub root: String,
    /// Whether the root exists and is a directory.
    pub is_directory: bool,
    /// What was found, in the order of the walk. An archive has an order of
    /// its own.
    pub entries: Vec<TreeEntry>,
}

/// The permission bits of every entry.
pub open spec fn entry_mode() -> u32 {
    0o755
}

/// The date of every entry: the first day that an archive can carry, at
/// midnight. With one date for all, equal trees give equal archives.
pub open spec fn entry_date() -> Stamp {
    (1980, 1, 1, 0, 0, 0)
}

/// The date of every entry.
pub fn pinned_date() -> (r: Stamp)
    ensures
        r == entry_date(),
{
    (1980, 1, 1, 0, 0, 0)
}

/// A path separator of either kind.
pub open spec fn is_sep(c: char) -> bool {
    c == '/' || c == '\\'
}

/// `path` lies at or below `root`: it begins with `root`, and `root` ends
/// where a segment of `path` ends.
pub open spec fn under_root(root: Seq<char>, path: Seq<char>) -> bool {
    &&& starts_with(path, root)
    &&& (path.len() == root.len() || root.len() == 0 || is_sep(root.last()) || is_sep(
        path[root.len() as int],
    ))
}

/// The path of an entry relative to the root: what follows the root, with
/// forward slashes, without a slash at the front.
pub open spec fn relative(root: Seq<char>, path: Seq<char>) -> Seq<char> {
    let rest = normalized(path.subrange(root.len() as int, path.len() as int));
    if rest.len() > 0 && rest[0] == '/' {
        rest.drop_first()
    } else {
        rest
    }
}

/// Entry `j` lies below the directory entry `i`.
pub open spec fn descends(tree: Seq<TreeEntry>, root: Seq<char>, i: int, j: int) -> bool {
    &&& 0 <= j < tree.len()
    &&& under_root(root, tree[j].path@)
    &&& starts_with(relative(root, tree[j].path@), relative(root, tree[i].path@) + "/"@)
    &&& relative(root, tree[j].path@).len() > relative(root, tree[i].path@).len() + 1
}

/// Entry `j` lies below the directory entry `i` and the policy lets it
/// through.
pub open spec fn survives(
    tree: Seq<TreeEntry>,
    root: Seq<char>,
    ignore: Seq<String>,
    i: int,
    j: int,
) -> bool {
    descends(tree, root, i, j) && !excluded(relative(root, tree[j].path@), ignore)
}

/// Entry `i` is a file that goes into the archive.
pub open spec fn kept_file(tree: Seq<TreeEntry>, root: Seq<char>, ignore: Seq<String>, i: int) -> bool {
    &&& tree[i].kind == EntryKind::File
    &&& under_root(root, tree[i].path@)
    &&& !excluded(relative(root, tree[i].path@), ignore)
}

/// Entry `i` is a directory that is recorded: it is not the root, the
/// policy lets it through, and it was empty from the start or something
/// below it is let through as well.
pub open spec fn kept_directory(
    tree: Seq<TreeEntry>,
    root: Seq<char>,
    ignore: Seq<String>,
    i: int,
) -> bool {
    &&& tree[i].kind == EntryKind::Directory
    &&& under_root(root, tree[i].path@)
    &&& relative(root, tree[i].path@).len() > 0
    &&& !excluded(relative(root, tree[i].path@), ignore)
    &&& ((forall|j: int| !descends(tree, root, i, j)) || (exists|j: int|
        survives(tree, root, ignore, i, j)))
}

/// Every file that goes into the archive is small enough for one entry.
pub open spec fn fits_archive(tree: Seq<TreeEntry>, root: Seq<char>, ignore: Seq<String>) -> bool {
    forall|i: int|
        0 <= i < tree.len() && kept_file(tree, root, ignore, i) ==> (#[trigger] tree[i]).content@.len()
            <= entry_limit()
}

/// The archive entries for the first `n` tree entries, in the order of the
/// tree.
pub open spec fn layout_upto(
    tree: Seq<TreeEntry>,
    root: Seq<char>,
    ignore: Seq<String>,
    n: int,
) -> Seq<Entry>
    decreases n,
{
    if n <= 0 {
        Seq::empty()
    } else {
        let before = layout_upto(tree, root, ignore, n - 1);
        let rel = relative(root, tree[n - 1].path@);
        if kept_file(tree, root, ignore, n - 1) {
            before.push((rel, false, entry_mode(), tree[n - 1].content@, entry_date()))
        } else if kept_directory(tree, root, ignore, n - 1) {
            before.push(
                (directory_name(rel), true, entry_mode(), Seq::<u8>::empty(), entry_date()),
            )
        } else {
            before
        }
    }
}

/// The archive entries for a whole tree, in the order of the tree.
pub open spec fn layout(tree: Seq<TreeEntry>, root: Seq<char>, ignore: Seq<String>) -> Seq<Entry> {
    layout_upto(tree, root, ignore, tree.len() as int)
}

/// The archive entries for a snapshot: those of its entries in archive
/// order, which is by path.
pub open spec fn packed_layout(tree: Seq<TreeEntry>, root: Seq<char>, ignore: Seq<String>) -> Seq<
    Entry,
> {
    layout(arranged(tree), root, ignore)
}

/// Where the last segment of a path begins.
pub open spec fn base_start(path: Seq<char>) -> int
    decreases path.len(),
{
    if path.len() == 0 {
        0
    } else if is_sep(path.last()) {
        path.len() as int
    } else {
        base_start(path.drop_last())
    }
}

/// The last segment of a path: the file's own name.
pub open spec fn base_name(path: Seq<char>) -> Seq<char> {
    path.subrange(base_start(path), path.len() as int)
}

pub proof fn lemma_base_start_bounds(path: Seq<char>)
    ensures
        0 <= base_start(path) <= path.len(),
    decreases path.len(),
{
    if path.len() > 0 && !is_sep(path.last()) {
        lemma_base_start_bounds(path.drop_last());
    }
}

/// A relative path is its own normal form.
pub proof fn lemma_relative_normalized(root: Seq<char>, path: Seq<char>)
    ensures
        normalized(relative(root, path)) == relative(root, path),
{
    let rest = normalized(path.subrange(root.len() as int, path.len() as int));
    assert(normalized(rest) =~= rest);
    assert(normalized(relative(root, path)) =~= relative(root, path));
}

/// Whether `path` lies at or below `root`.
pub fn is_under_root(root: &Vec<char>, path: &Vec<char>) -> (r: bool)
    ensures
        r == under_root(root@, path@),
{
    if !occurs_at_exec(path, root, 0) {
        return false;
    }
    let n = root.len();
    path.len() == n || n == 0 || root[n - 1] == '/' || root[n - 1] == '\\' || path[n] == '/'
        || path[n] == '\\'
}

/// The path of an entry relative to the root.
pub fn relative_path(root: &Vec<char>, path: &Vec<char>) -> (r: Vec<char>)
    requires
        root.len() <= path.len(),
    ensures
        r@ == relative(root@, path@),
{
    let mut out: Vec<char> = Vec::new();
    let mut i: usize = root.len();
    let ghost rest = normalized(path@.subrange(root.len() as int, path.len() as int));
    if i < path.len() && (path[i] == '/' || path[i] == '\\') {
        i += 1;
    }
    let start = i;
    while i < path.len()
        invariant
            root.len() <= start <= i <= path.len(),
            rest == normalized(path@.subrange(root.len() as int, path.len() as int)),
            out@ == rest.subrange(start - root.len(), i - root.len()),
        decreases path.len() - i,
    {
        let c = path[i];
        out.push(if c == '\\' { '/' } else { c });
        i += 1;
    }
    proof {
        if start == root.len() {
            assert(rest.subrange(0, rest.len() as int) =~= rest);
            if rest.len() > 0 {
                assert(rest[0] != '/');
            }
        } else {
            assert(rest[0] == '/');
            assert(rest.subrange(1, rest.len() as int) =~= rest.drop_first());
        }
    }
    out
}

/// The file's own name.
pub fn file_name(path: &str) -> (r: String)
    ensures
        r@ == base_name(path@),
{
    let chars = chars_of(path);
    let mut start: usize = chars.len();
    assert(chars@.take(chars.len() as int) =~= chars@);
    while start > 0 && chars[start - 1] != '/' && chars[start - 1] != '\\'
        invariant
            start <= chars.len(),
            base_start(chars@) == base_start(chars@.take(start as int)),
        decreases start,
    {
        proof {
            assert(chars@.take(start as int).drop_last() =~= chars@.take(start - 1));
            assert(chars@.take(start as int).last() == chars@[start - 1]);
        }
        start -= 1;
    }
    proof {
        assert(chars@.take(chars.len() as int) =~= chars@);
        let t = chars@.take(start as int);
        if start > 0 {
            assert(t.last() == chars@[start - 1]);
        }
        assert(base_start(t) == start);
    }
    string_of_range(&chars, start, chars.len())
}

/// Archive entry `entry` stands for tree entry `i`, which lies under the
/// root and which the policy lets through.
pub open spec fn entry_from(
    tree: Seq<TreeEntry>,
    root: Seq<char>,
    ignore: Seq<String>,
    entry: Entry,
    i: int,
) -> bool {
    &&& 0 <= i < tree.len()
    &&& under_root(root, tree[i].path@)
    &&& !excluded(relative(root, tree[i].path@), ignore)
    &&& (entry.0 == relative(root, tree[i].path@) || entry.0 == directory_name(
        relative(root, tree[i].path@),
    ))
}

/// Some tree entry that the policy lets through stands behind `entry`.
pub open spec fn has_origin(
    tree: Seq<TreeEntry>,
    root: Seq<char>,
    ignore: Seq<String>,
    entry: Entry,
) -> bool {
    exists|i: int| entry_from(tree, root, ignore, entry, i)
}

/// Every entry of a layout stands for a tree entry under the root that the
/// policy lets through: nothing excluded reaches an archive.
pub proof fn lemma_layout_origins(
    tree: Seq<TreeEntry>,
    root: Seq<char>,
    ignore: Seq<String>,
    n: int,
)
    requires
        0 <= n <= tree.len(),
    ensures
        forall|k: int|
            0 <= k < layout_upto(tree, root, ignore, n).len() ==> has_origin(
                tree,
                root,
                ignore,
                #[trigger] layout_upto(tree, root, ignore, n)[k],
            ),
    decreases n,
{
    if n > 0 {
        lemma_layout_origins(tree, root, ignore, n - 1);
        let before = layout_upto(tree, root, ignore, n - 1);
        let all = layout_upto(tree, root, ignore, n);
        assert forall|k: int| 0 <= k < all.len() implies has_origin(
            tree,
            root,
            ignore,
            #[trigger] all[k],
        ) by {
            if k < before.len() {
                assert(all[k] == before[k]);
            } else {
                assert(entry_from(tree, root, ignore, all[k], n - 1));
            }
        }
    }
}

/// Every entry of a layout carries the one date, and the one set of
/// permission bits.
pub proof fn lemma_layout_dates(tree: Seq<TreeEntry>, root: Seq<char>, ignore: Seq<String>, n: int)
    requires
        0 <= n <= tree.len(),
    ensures
        forall|k: int|
            0 <= k < layout_upto(tree, root, ignore, n).len() ==> (#[trigger] layout_upto(
                tree,
                root,
                ignore,
                n,
            )[k]).4 == entry_date() && layout_upto(tree, root, ignore, n)[k].2 == entry_mode(),
    decreases n,
{
    if n > 0 {
        lemma_layout_dates(tree, root, ignore, n - 1);
        let before = layout_upto(tree, root, ignore, n - 1);
        let all = layout_upto(tree, root, ignore, n);
        assert forall|k: int| 0 <= k < all.len() implies (#[trigger] all[k]).4 == entry_date()
            && all[k].2 == entry_mode() by {
            if k < before.len() {
                assert(all[k] == before[k]);
            }
        }
    }
}

/// A name that does not end in a slash is a segment of a directory's entry
/// name only if it is a segment of the directory's path.
pub proof fn lemma_directory_name_segments(rel: Seq<char>, name: Seq<char>)
    requires
        name.len() > 0,
        name.last() != '/',
        has_segment(directory_name(rel), name),
    ensures
        has_segment(rel, name),
{
    reveal_strlit("/");
    let full = directory_name(rel);
    if full != rel {
        assert(full =~= rel.push('/'));
        let i = choose|i: int| crate::policy::segment_at(full, name, i);
        if i + name.len() == full.len() {
            assert(full.subrange(i, i + name.len()).last() == full[full.len() - 1]);
        }
        assert(rel.subrange(i, i + name.len()) =~= full.subrange(i, i + name.len()));
        if i > 0 {
            assert(full[i - 1] == rel[i - 1]);
        }
        assert(crate::policy::segment_at(rel, name, i));
    }
}

/// No entry of a layout has a version-control or dependency-install
/// segment in its name.
pub proof fn lemma_layout_excludes(tree: Seq<TreeEntry>, root: Seq<char>, ignore: Seq<String>)
    ensures
        forall|k: int|
            0 <= k < layout(tree, root, ignore).len() ==> !has_segment(
                (#[trigger] layout(tree, root, ignore)[k]).0,
                ".git"@,
            ) && !has_segment(layout(tree, root, ignore)[k].0, "node_modules"@),
{
    let all = layout(tree, root, ignore);
    lemma_layout_origins(tree, root, ignore, tree.len() as int);
    reveal_strlit(".git");
    reveal_strlit("node_modules");
    assert forall|k: int| 0 <= k < all.len() implies !has_segment((#[trigger] all[k]).0, ".git"@)
        && !has_segment(all[k].0, "node_modules"@) by {
        assert(has_origin(tree, root, ignore, all[k]));
        let i = choose|i: int| entry_from(tree, root, ignore, all[k], i);
        let rel = relative(root, tree[i].path@);
        lemma_relative_normalized(root, tree[i].path@);
        assert(!has_segment(rel, ".git"@) && !has_segment(rel, "node_modules"@));
        if has_segment(all[k].0, ".git"@) {
            lemma_directory_name_segments(rel, ".git"@);
        }
        if has_segment(all[k].0, "node_modules"@) {
            lemma_directory_name_segments(rel, "node_modules"@);
        }
    }
}

/// Two trees hold the same entries: the same paths, kinds and bytes, in the
/// same order.
pub open spec fn same_tree(first: Seq<TreeEntry>, second: Seq<TreeEntry>) -> bool {
    &&& first.len() == second.len()
    &&& forall|i: int|
        0 <= i < first.len() ==> (#[trigger] first[i]).path@ == second[i].path@ && first[i].kind
            == second[i].kind && first[i].content@ == second[i].content@
}

/// Two ignore lists hold the same names in the same order.
pub open spec fn same_names(first: Seq<String>, second: Seq<String>) -> bool {
    &&& first.len() == second.len()
    &&& forall|k: int| 0 <= k < first.len() ==> (#[trigger] first[k])@ == second[k]@
}

/// The policy depends on the names of the ignore list alone.
pub proof fn lemma_excluded_same_names(path: Seq<char>, first: Seq<String>, second: Seq<String>)
    requires
        same_names(first, second),
    ensures
        excluded(path, first) == excluded(path, second),
{
    let p = normalized(path);
    if listed(p, first) {
        let k = choose|k: int| 0 <= k < first.len() && has_segment(p, #[trigger] first[k]@);
        assert(has_segment(p, second[k]@));
    }
    if listed(p, second) {
        let k = choose|k: int| 0 <= k < second.len() && has_segment(p, #[trigger] second[k]@);
        assert(first[k]@ == second[k]@);
        assert(has_segment(p, first[k]@));
    }
}

proof fn lemma_kept_same(
    first: Seq<TreeEntry>,
    second: Seq<TreeEntry>,
    root: Seq<char>,
    ignore: Seq<String>,
    other: Seq<String>,
    i: int,
)
    requires
        same_tree(first, second),
        same_names(ignore, other),
        0 <= i < first.len(),
    ensures
        kept_file(first, root, ignore, i) == kept_file(second, root, other, i),
        kept_directory(first, root, ignore, i) == kept_directory(second, root, other, i),
{
    assert(first[i].path@ == second[i].path@);
    lemma_excluded_same_names(relative(root, first[i].path@), ignore, other);
    assert forall|j: int| descends(first, root, i, j) == descends(second, root, i, j) by {
        if 0 <= j < first.len() {
            assert(first[j].path@ == second[j].path@);
        }
    }
    assert forall|j: int|
        survives(first, root, ignore, i, j) == survives(second, root, other, i, j) by {
        if 0 <= j < first.len() {
            assert(first[j].path@ == second[j].path@);
            lemma_excluded_same_names(relative(root, first[j].path@), ignore, other);
        }
    }
    if exists|j: int| survives(first, root, ignore, i, j) {
        let j = choose|j: int| survives(first, root, ignore, i, j);
        assert(survives(second, root, other, i, j));
    }
    if exists|j: int| survives(second, root, other, i, j) {
        let j = choose|j: int| survives(second, root, other, i, j);
        assert(survives(first, root, ignore, i, j));
    }
    if forall|j: int| !descends(first, root, i, j) {
        assert forall|j: int| !descends(second, root, i, j) by {
            assert(!descends(first, root, i, j));
        }
    }
    if forall|j: int| !descends(second, root, i, j) {
        assert forall|j: int| !descends(first, root, i, j) by {
            assert(!descends(second, root, i, j));
        }
    }
}

/// The layout depends on what a tree holds alone.
pub proof fn lemma_layout_same_tree(
    first: Seq<TreeEntry>,
    second: Seq<TreeEntry>,
    root: Seq<char>,
    ignore: Seq<String>,
    other: Seq<String>,
    n: int,
)
    requires
        same_tree(first, second),
        same_names(ignore, other),
        0 <= n <= first.len(),
    ensures
        layout_upto(first, root, ignore, n) == layout_upto(second, root, other, n),
    decreases n,
{
    if n > 0 {
        lemma_layout_same_tree(first, second, root, ignore, other, n - 1);
        lemma_kept_same(first, second, root, ignore, other, n - 1);
        assert(first[n - 1].path@ == second[n - 1].path@);
    }
}

/// Packing the same tree twice gives the same bytes: what `pack_directory`
/// returns for a tree is decided by what the tree holds, the root and the
/// names of the ignore list.
pub proof fn lemma_pack_is_deterministic(
    first: Seq<TreeEntry>,
    second: Seq<TreeEntry>,
    root: Seq<char>,
    ignore: Seq<String>,
    other: Seq<String>,
)
    requires
        same_tree(first, second),
        same_names(ignore, other),
    ensures
        zip_image(packed_layout(first, root, ignore)) == zip_image(
            packed_layout(second, root, other),
        ),
{
    lemma_arranged_same(first, second);
    lemma_arranged_len(first);
    lemma_layout_same_tree(
        arranged(first),
        arranged(second),
        root,
        ignore,
        other,
        arranged(first).len() as int,
    );
}

/// Two walks of one tree give the same bytes: where two snapshots hold the
/// same entries, each path once, the order in which they list them does
/// not matter.
pub proof fn lemma_pack_any_walk(
    first: Seq<TreeEntry>,
    second: Seq<TreeEntry>,
    root: Seq<char>,
    ignore: Seq<String>,
    other: Seq<String>,
)
    requires
        one_path_each(first),
        one_path_each(second),
        same_entries(first, second),
        same_names(ignore, other),
    ensures
        zip_image(packed_layout(first, root, ignore)) == zip_image(
            packed_layout(second, root, other),
        ),
{
    lemma_arranged_any_walk(first, second);
    lemma_arranged_len(first);
    lemma_layout_same_tree(
        arranged(first),
        arranged(second),
        root,
        ignore,
        other,
        arranged(first).len() as int,
    );
}

/// No entry of a packed archive has a version-control or
/// dependency-install segment in its name, and each carries the one date.
pub proof fn lemma_pack_excludes(tree: Seq<TreeEntry>, root: Seq<char>, ignore: Seq<String>)
    ensures
        forall|k: int|
            0 <= k < packed_layout(tree, root, ignore).len() ==> !has_segment(
                (#[trigger] packed_layout(tree, root, ignore)[k]).0,
                ".git"@,
            ) && !has_segment(packed_layout(tree, root, ignore)[k].0, "node_modules"@)
                && packed_layout(tree, root, ignore)[k].4 == entry_date(),
{
    lemma_layout_excludes(arranged(tree), root, ignore);
    lemma_layout_dates(arranged(tree), root, ignore, arranged(tree).len() as int);
}

struct Scan {
    under: bool,
    rel: Vec<char>,
    excluded: bool,
}

spec fn scan_ok(entry: TreeEntry, root: Seq<char>, ignore: Seq<String>, scan: Scan) -> bool {
    &&& scan.under == under_root(root, entry.path@)
    &&& scan.under ==> scan.rel@ == relative(root, entry.path@) && scan.excluded == excluded(
        relative(root, entry.path@),
        ignore,
    )
}

spec fn scanned(tree: Seq<TreeEntry>, root: Seq<char>, ignore: Seq<String>, scans: Seq<Scan>) -> bool {
    &&& scans.len() == tree.len()
    &&& forall|i: int| 0 <= i < tree.len() ==> scan_ok(tree[i], root, ignore, #[trigger] scans[i])
}

fn scan_entry(root: &Vec<char>, entry: &TreeEntry, ignore: &Vec<String>) -> (scan: Scan)
    ensures
        scan_ok(*entry, root@, ignore@, scan),
{
    let path = chars_of(entry.path.as_str());
    if !is_under_root(root, &path) {
        return Scan { under: false, rel: Vec::new(), excluded: false };
    }
    let rel = relative_path(root, &path);
    proof {
        lemma_relative_normalized(root@, path@);
    }
    let excluded = excluded_normalized(&rel, ignore);
    Scan { under: true, rel, excluded }
}

fn scan_tree(
    root: &Vec<char>,
    tree: &Vec<TreeEntry>,
    order: &Vec<usize>,
    ignore: &Vec<String>,
) -> (scans: Vec<Scan>)
    requires
        forall|k: int| 0 <= k < order@.len() ==> (#[trigger] order@[k]) < tree@.len(),
    ensures
        scanned(picked(order@, tree@), root@, ignore@, scans@),
{
    let mut scans: Vec<Scan> = Vec::new();
    let mut i: usize = 0;
    while i < order.len()
        invariant
            i <= order@.len(),
            scans@.len() == i,
            forall|k: int| 0 <= k < order@.len() ==> (#[trigger] order@[k]) < tree@.len(),
            forall|k: int|
                0 <= k < i ==> scan_ok(
                    picked(order@, tree@)[k],
                    root@,
                    ignore@,
                    #[trigger] scans@[k],
                ),
        decreases order@.len() - i,
    {
        let scan = scan_entry(root, &tree[order[i]], ignore);
        scans.push(scan);
        i += 1;
    }
    scans
}

fn directory_survives(
    scans: &Vec<Scan>,
    i: usize,
    Ghost(tree): Ghost<Seq<TreeEntry>>,
    Ghost(root): Ghost<Seq<char>>,
    Ghost(ignore): Ghost<Seq<String>>,
) -> (r: bool)
    requires
        scanned(tree, root, ignore, scans@),
        i < scans@.len(),
        scans@[i as int].under,
    ensures
        r == ((forall|j: int| !descends(tree, root, i as int, j)) || (exists|j: int|
            survives(tree, root, ignore, i as int, j))),
{
    let mut prefix: Vec<char> = Vec::new();
    let own = &scans[i].rel;
    let mut k: usize = 0;
    while k < own.len()
        invariant
            k <= own@.len(),
            prefix@ == own@.take(k as int),
        decreases own@.len() - k,
    {
        prefix.push(own[k]);
        k += 1;
    }
    prefix.push('/');
    proof {
        reveal_strlit("/");
        assert(own@.take(own@.len() as int) =~= own@);
        assert(scan_ok(tree[i as int], root, ignore, scans@[i as int]));
        assert(prefix@ =~= relative(root, tree[i as int].path@) + "/"@);
    }
    let mut any_below = false;
    let mut any_kept = false;
    let mut j: usize = 0;
    while j < scans.len()
        invariant
            scanned(tree, root, ignore, scans@),
            i < scans@.len(),
            j <= scans@.len(),
            prefix@ == relative(root, tree[i as int].path@) + "/"@,
            prefix@.len() == relative(root, tree[i as int].path@).len() + 1,
            any_below == exists|m: int| 0 <= m < j && descends(tree, root, i as int, m),
            any_kept == exists|m: int| 0 <= m < j && survives(tree, root, ignore, i as int, m),
        decreases scans@.len() - j,
    {
        let other = &scans[j];
        assert(scan_ok(tree[j as int], root, ignore, scans@[j as int]));
        if other.under && other.rel.len() > prefix.len() && occurs_at_exec(&other.rel, &prefix, 0) {
            assert(descends(tree, root, i as int, j as int));
            any_below = true;
            if !other.excluded {
                assert(survives(tree, root, ignore, i as int, j as int));
                any_kept = true;
            }
        } else {
            assert(!descends(tree, root, i as int, j as int));
        }
        proof {
            if !survives(tree, root, ignore, i as int, j as int) {
                assert forall|m: int| 0 <= m < j + 1 && survives(
                    tree,
                    root,
                    ignore,
                    i as int,
                    m,
                ) implies 0 <= m < j by {}
            }
            if !descends(tree, root, i as int, j as int) {
                assert forall|m: int| 0 <= m < j + 1 && descends(tree, root, i as int, m) implies 0
                    <= m < j by {}
            }
        }
        j += 1;
    }
    !any_below || any_kept
}

/// Packs a directory tree into one archive. The archive holds every file
/// that the policy lets through, under its path relative to the root, and
/// every directory that is recorded, arranged by path; what it holds
/// decides its bytes. A root that is a directory is packed, unless a file
/// is too large for one entry. A root that is no directory is an I/O
/// error.
pub fn pack_directory(snapshot: &TreeSnapshot, ignore: &Vec<String>) -> (r: Result<
    Vec<u8>,
    SyncError,
>)
    ensures
        snapshot.is_directory && fits_archive(snapshot.entries@, snapshot.root@, ignore@) ==> r
            is Ok,
        match r {
            Ok(bytes) => snapshot.is_directory && bytes@ == zip_image(
                packed_layout(snapshot.entries@, snapshot.root@, ignore@),
            ),
            Err(e) => e == SyncError::IOError,
        },
{
    if !snapshot.is_directory {
        return Err(SyncError::IOError);
    }
    let root = chars_of(snapshot.root.as_str());
    let order = arrange(&snapshot.entries);
    let scans = scan_tree(&root, &snapshot.entries, &order, ignore);
    let ghost tree = arranged(snapshot.entries@);
    let mut writer = archive_new();
    let mut i: usize = 0;
    while i < order.len()
        invariant
            i <= order@.len(),
            order@.len() == tree.len(),
            forall|k: int| 0 <= k < order@.len() ==> (#[trigger] order@[k]) < snapshot.entries@.len(),
            tree == picked(order@, snapshot.entries@),
            tree == arranged(snapshot.entries@),
            root@ == snapshot.root@,
            scanned(tree, root@, ignore@, scans@),
            archive_entries(writer) == layout_upto(tree, root@, ignore@, i as int),
            fits_archive(snapshot.entries@, root@, ignore@) ==> archive_open(writer),
            snapshot.is_directory,
        decreases order@.len() - i,
    {
        let entry = &snapshot.entries[order[i]];
        let scan = &scans[i];
        assert(tree[i as int] == snapshot.entries@[order@[i as int] as int]);
        assert(scan_ok(tree[i as int], root@, ignore@, scans@[i as int]));
        let ghost before = archive_entries(writer);
        match entry.kind {
            EntryKind::File => {
                if scan.under && !scan.excluded {
                    let name = string_of(&scan.rel);
                    match archive_start_file(&mut writer, name.as_str(), 0o755, pinned_date()) {
                        Ok(_) => {},
                        Err(_) => {
                            return Err(SyncError::IOError);
                        },
                    }
                    proof {
                        assert(kept_file(tree, root@, ignore@, i as int));
                        if fits_archive(snapshot.entries@, root@, ignore@) {
                            let at = order@[i as int] as int;
                            assert(kept_file(snapshot.entries@, root@, ignore@, at));
                            assert(snapshot.entries@[at].content@.len() <= entry_limit());
                            assert(takes(archive_entries(writer), entry.content@.len()));
                        }
                    }
                    match archive_write(&mut writer, entry.content.as_slice()) {
                        Ok(_) => {},
                        Err(_) => {
                            return Err(SyncError::IOError);
                        },
                    }
                    proof {
                        let started = before.push(
                            (name@, false, 0o755u32, Seq::<u8>::empty(), entry_date()),
                        );
                        assert(Seq::<u8>::empty() + entry.content@ =~= entry.content@);
                        assert(appended(started, entry.content@) =~= before.push(
                            (name@, false, 0o755u32, entry.content@, entry_date()),
                        ));
                    }
                }
            },
            EntryKind::Directory => {
                if scan.under && !scan.excluded && scan.rel.len() > 0 && directory_survives(
                    &scans,
                    i,
                    Ghost(tree),
                    Ghost(root@),
                    Ghost(ignore@),
                ) {
                    let name = string_of(&scan.rel);
                    match archive_add_directory(
                        &mut writer,
                        name.as_str(),
                        0o755,
                        pinned_date(),
                    ) {
                        Ok(_) => {},
                        Err(_) => {
                            return Err(SyncError::IOError);
                        },
                    }
                }
            },
        }
        i += 1;
    }
    match archive_finish(&mut writer) {
        Ok(bytes) => Ok(bytes),
        Err(_) => Err(SyncError::IOError),
    }
}

/// Wraps one file as an archive with a single entry, named by the file's
/// own name. A file that was read is wrapped, unless it is too large for
/// one entry. A file that could not be read is an I/O error.
pub fn pack_file(path: &str, content: Option<&Vec<u8>>) -> (r: Result<Vec<u8>, SyncError>)
    ensures
        content is Some && content->0@.len() <= entry_limit() ==> r is Ok,
        match r {
            Ok(bytes) => content is Some && bytes@ == zip_image(
                seq![(base_name(path@), false, entry_mode(), content->0@, entry_date())],
            ),
            Err(e) => e == SyncError::IOError,
        },
{
    let data = match content {
        Some(data) => data,
        None => {
            return Err(SyncError::IOError);
        },
    };
    let name = file_name(path);
    let mut writer = archive_new();
    match archive_start_file(&mut writer, name.as_str(), 0o755, pinned_date()) {
        Ok(_) => {},
        Err(_) => {
            return Err(SyncError::IOError);
        },
    }
    match archive_write(&mut writer, data.as_slice()) {
        Ok(_) => {},
        Err(_) => {
            return Err(SyncError::IOError);
        },
    }
    proof {
        let started = Seq::<Entry>::empty().push(
            (name@, false, 0o755u32, Seq::<u8>::empty(), entry_date()),
        );
        assert(Seq::<u8>::empty() + data@ =~= data@);
        assert(appended(started, data@) =~= seq![
            (base_name(path@), false, entry_mode(), data@, entry_date()),
        ]);
    }
    match archive_finish(&mut writer) {
        Ok(bytes) => Ok(bytes),
        Err(_) => Err(SyncError::IOError),
    }
}

/// Encodes the bytes of one file as text that is safe to carry in a JSON
/// body. Input too long for its text to be addressed gives nothing.
pub fn encode(content: &Vec<u8>) -> (r: Option<String>)
    ensures
        match r {
            Some(text) => encodable(content@.len()) && text@ == base64_text(content@)
                && text@.len() == (content@.len() + 2) / 3 * 4,
            None => !encodable(content@.len()),
        },
{
    if content.len() > usize::MAX / 4 * 3 {
        return None;
    }
    Some(base64_encode(content.as_slice()))
}

} // verus!
