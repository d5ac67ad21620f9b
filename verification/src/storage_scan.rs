//! Disk usage: a directory tree, as the file system showed it, turned into
//! a tree of sizes with the largest entries first.
use vstd::prelude::*;
use crate::order::{
    Sized64, sorted_by, key_total, lemma_sorted_map, lemma_sorted_total, lemma_total_split,
    sort_by_size, size_key, by_size,
};
use crate::text::{decimal, decimal_text, join3};

verus! {

/// How deep a scan descends below its root.
pub const MAX_DEPTH: usize = 64;

/// How many children of a directory are listed one by one.
pub const MAX_VISIBLE_CHILDREN: usize = 160;

/// One entry of the size tree.
#[derive(Debug)]
pub struct StorageEntry {
    pub name: String,
    pub path: String,
    pub size_bytes: u64,
    pub kind: &'static str,
    pub children: Vec<StorageEntry>,
}

impl Sized64 for StorageEntry {
    open spec fn size_of(&self) -> u64 {
        self.size_bytes
    }

    fn size(&self) -> (r: u64) {
        self.size_bytes
    }
}

/// The result of a scan.
#[derive(Debug)]
pub struct StorageScanResult {
    pub root: StorageEntry,
    pub file_count: u64,
    pub directory_count: u64,
    pub skipped_count: u64,
}

/// A path as the file system showed it, symbolic links not followed.
#[derive(Debug)]
pub enum FsNode {
    /// Its metadata could not be read.
    Unreadable,
    /// A symbolic link.
    Symlink,
    /// Neither a file nor a directory.
    Other,
    /// An ordinary file.
    File { name: String, path: String, size_bytes: u64 },
    /// A directory with its listing, none where it could not be read; an
    /// entry of the listing is none where it could not be read.
    Directory { name: String, path: String, listing: Option<Vec<Option<FsNode>>> },
}

/// The counts a scan keeps.
#[derive(Clone, Copy, Debug)]
pub struct ScanStats {
    pub files: u64,
    pub directories: u64,
    pub skipped: u64,
}

/// An entry of the size tree, as mathematical values.
pub struct EntryView {
    pub name: Seq<char>,
    pub path: Seq<char>,
    pub size: nat,
    pub kind: Seq<char>,
    pub children: Seq<EntryView>,
}

/// An entry with nothing in it.
pub open spec fn empty_view() -> EntryView {
    EntryView {
        name: Seq::empty(),
        path: Seq::empty(),
        size: 0,
        kind: Seq::empty(),
        children: Seq::empty(),
    }
}

/// The entry as mathematical values.
pub open spec fn entry_view(e: StorageEntry) -> EntryView
    decreases e,
{
    EntryView {
        name: e.name@,
        path: e.path@,
        size: e.size_bytes as nat,
        kind: e.kind@,
        children: Seq::new(
            e.children@.len(),
            |i: int|
                if 0 <= i < e.children@.len() {
                    entry_view(e.children@[i])
                } else {
                    empty_view()
                },
        ),
    }
}

/// The entries as mathematical values.
pub open spec fn views(s: Seq<StorageEntry>) -> Seq<EntryView> {
    s.map_values(|e: StorageEntry| entry_view(e))
}

/// The size of an entry, as an ordering key.
pub open spec fn view_size() -> spec_fn(EntryView) -> int {
    |v: EntryView| v.size as int
}

/// Whether scanning `node` at `depth` yields an entry: files do, and
/// directories above the depth limit.
pub open spec fn produces(node: FsNode, depth: nat) -> bool {
    match node {
        FsNode::File { .. } => true,
        FsNode::Directory { .. } => depth < 64,
        _ => false,
    }
}

/// The children listed for a directory at `path`, given its children
/// largest first: beyond the first 160, the rest are summed up in one
/// aggregate entry.
pub open spec fn shown(sorted: Seq<EntryView>, path: Seq<char>) -> Seq<EntryView> {
    if sorted.len() > 160 {
        sorted.take(160).push(
            EntryView {
                name: "其他 "@ + decimal((sorted.len() - 160) as nat) + " 个项目"@,
                path,
                size: key_total(sorted.skip(160), view_size()) as nat,
                kind: "aggregate"@,
                children: Seq::empty(),
            },
        )
    } else {
        sorted
    }
}

/// The entry that scanning `node` at `depth` yields, where it yields one.
pub open spec fn scan_view(node: FsNode, depth: nat) -> EntryView
    decreases node,
{
    match node {
        FsNode::File { name, path, size_bytes } => EntryView {
            name: name@,
            path: path@,
            size: size_bytes as nat,
            kind: "file"@,
            children: Seq::empty(),
        },
        FsNode::Directory { name, path, listing } => match listing {
            None => EntryView {
                name: name@,
                path: path@,
                size: 0,
                kind: "directory"@,
                children: Seq::empty(),
            },
            Some(items) => {
                let kids = shown(sorted_by(raw_children(items@, depth + 1), view_size()), path@);
                EntryView {
                    name: name@,
                    path: path@,
                    size: key_total(kids, view_size()) as nat,
                    kind: "directory"@,
                    children: kids,
                }
            },
        },
        _ => empty_view(),
    }
}

/// The entries that the listing `items` yields at `depth`, in order.
pub open spec fn raw_children(items: Seq<Option<FsNode>>, depth: nat) -> Seq<EntryView>
    decreases items,
{
    if items.len() == 0 {
        Seq::empty()
    } else {
        let rest = raw_children(items.drop_last(), depth);
        match items.last() {
            Some(n) => if produces(n, depth) {
                rest.push(scan_view(n, depth))
            } else {
                rest
            },
            None => rest,
        }
    }
}

/// What scanning `node` at `depth` counts: files, directories, skipped.
pub open spec fn scan_counts(node: FsNode, depth: nat) -> (nat, nat, nat)
    decreases node,
{
    match node {
        FsNode::File { .. } => (1, 0, 0),
        FsNode::Directory { listing, .. } => if depth >= 64 {
            (0, 0, 1)
        } else {
            match listing {
                None => (0, 1, 1),
                Some(items) => {
                    let c = item_counts(items@, depth + 1);
                    (c.0, c.1 + 1, c.2)
                },
            }
        },
        _ => (0, 0, 1),
    }
}

/// What scanning the listing `items` at `depth` counts.
pub open spec fn item_counts(items: Seq<Option<FsNode>>, depth: nat) -> (nat, nat, nat)
    decreases items,
{
    if items.len() == 0 {
        (0, 0, 0)
    } else {
        let c = item_counts(items.drop_last(), depth);
        let d = match items.last() {
            Some(n) => scan_counts(n, depth),
            None => (0, 0, 1),
        };
        (c.0 + d.0, c.1 + d.1, c.2 + d.2)
    }
}

proof fn lemma_total_nonneg(s: Seq<EntryView>)
    ensures
        key_total(s, view_size()) >= 0,
    decreases s.len(),
{
    if s.len() > 0 {
        lemma_total_nonneg(s.drop_last());
    }
}

proof fn lemma_total_push(s: Seq<EntryView>, x: EntryView)
    ensures
        key_total(s.push(x), view_size()) == key_total(s, view_size()) + x.size,
{
    assert(s.push(x).drop_last() =~= s);
}

proof fn lemma_shown_total(sorted: Seq<EntryView>, path: Seq<char>)
    ensures
        key_total(shown(sorted, path), view_size()) == key_total(sorted, view_size()),
        sorted.len() > 160 ==> key_total(sorted.skip(160), view_size()) <= key_total(sorted, view_size()),
{
    if sorted.len() > 160 {
        lemma_total_split(sorted, 160, view_size());
        lemma_total_nonneg(sorted.take(160));
        lemma_total_nonneg(sorted.skip(160));
        let agg = shown(sorted, path).last();
        assert(shown(sorted, path) == sorted.take(160).push(agg));
        lemma_total_push(sorted.take(160), agg);
    }
}

proof fn lemma_raw_step(items: Seq<Option<FsNode>>, depth: nat, i: int)
    requires
        0 <= i < items.len(),
    ensures
        raw_children(items.take(i + 1), depth) == (match items[i] {
            Some(n) => if produces(n, depth) {
                raw_children(items.take(i), depth).push(scan_view(n, depth))
            } else {
                raw_children(items.take(i), depth)
            },
            None => raw_children(items.take(i), depth),
        }),
        item_counts(items.take(i + 1), depth) == ({
            let c = item_counts(items.take(i), depth);
            let d = match items[i] {
                Some(n) => scan_counts(n, depth),
                None => (0nat, 0nat, 1nat),
            };
            (c.0 + d.0, c.1 + d.1, c.2 + d.2)
        }),
{
    assert(items.take(i + 1).drop_last() =~= items.take(i));
    assert(items.take(i + 1).last() == items[i]);
}

proof fn lemma_prefix_bounds(items: Seq<Option<FsNode>>, depth: nat, i: int)
    requires
        0 <= i <= items.len(),
    ensures
        key_total(raw_children(items.take(i), depth), view_size()) <= key_total(
            raw_children(items, depth),
            view_size(),
        ),
        item_counts(items.take(i), depth).0 <= item_counts(items, depth).0,
        item_counts(items.take(i), depth).1 <= item_counts(items, depth).1,
        item_counts(items.take(i), depth).2 <= item_counts(items, depth).2,
    decreases items.len() - i,
{
    if i < items.len() {
        lemma_prefix_bounds(items, depth, i + 1);
        lemma_raw_step(items, depth, i);
        match items[i] {
            Some(n) => if produces(n, depth) {
                lemma_total_push(raw_children(items.take(i), depth), scan_view(n, depth));
            },
            None => {},
        }
    } else {
        assert(items.take(i) =~= items);
    }
}

proof fn lemma_views_push(s: Seq<StorageEntry>, e: StorageEntry)
    ensures
        views(s.push(e)) == views(s).push(entry_view(e)),
{
    assert(views(s.push(e)) =~= views(s).push(entry_view(e)));
}

/// The sizes of the entries added up.
fn total_size(v: &Vec<StorageEntry>) -> (r: u64)
    requires
        key_total(views(v@), view_size()) <= u64::MAX,
    ensures
        r == key_total(views(v@), view_size()),
{
    let mut total: u64 = 0;
    let mut i: usize = 0;
    while i < v.len()
        invariant
            i <= v@.len(),
            key_total(views(v@), view_size()) <= u64::MAX,
            total == key_total(views(v@).take(i as int), view_size()),
        decreases v@.len() - i,
    {
        proof {
            let w = views(v@);
            assert(w.take(i + 1) =~= w.take(i as int).push(entry_view(v@[i as int])));
            lemma_total_push(w.take(i as int), entry_view(v@[i as int]));
            lemma_total_split(w, i + 1, view_size());
            lemma_total_nonneg(w.skip(i + 1));
        }
        total = total + v[i].size_bytes;
        i = i + 1;
    }
    proof {
        assert(views(v@).take(v@.len() as int) =~= views(v@));
    }
    total
}

fn leaf(name: &String, path: &String, size_bytes: u64, kind: &'static str) -> (r: StorageEntry)
    ensures
        r.name == *name,
        r.path == *path,
        r.size_bytes == size_bytes,
        r.kind == kind,
        r.children@.len() == 0,
        entry_view(r) == (EntryView {
            name: name@,
            path: path@,
            size: size_bytes as nat,
            kind: kind@,
            children: Seq::empty(),
        }),
{
    let r = StorageEntry {
        name: name.clone(),
        path: path.clone(),
        size_bytes,
        kind,
        children: Vec::new(),
    };
    assert(entry_view(r).children =~= Seq::<EntryView>::empty());
    r
}

/// Scans `node` at `depth`: files become entries of their size; symbolic
/// links, unreadable paths and directories at the depth limit are skipped;
/// a directory lists its children largest first, sums up all but the 160
/// largest in one aggregate entry, and is as large as its children.
pub fn scan_entry(node: &FsNode, depth: usize, stats: &mut ScanStats) -> (r: Option<StorageEntry>)
    requires
        depth <= 64,
        produces(*node, depth as nat) ==> scan_view(*node, depth as nat).size <= u64::MAX,
        old(stats).files + scan_counts(*node, depth as nat).0 <= u64::MAX,
        old(stats).directories + scan_counts(*node, depth as nat).1 <= u64::MAX,
        old(stats).skipped + scan_counts(*node, depth as nat).2 <= u64::MAX,
    ensures
        r is Some == produces(*node, depth as nat),
        r matches Some(e) ==> entry_view(e) == scan_view(*node, depth as nat),
        final(stats).files == old(stats).files + scan_counts(*node, depth as nat).0,
        final(stats).directories == old(stats).directories + scan_counts(*node, depth as nat).1,
        final(stats).skipped == old(stats).skipped + scan_counts(*node, depth as nat).2,
    decreases node,
{
    match node {
        FsNode::File { name, path, size_bytes } => {
            stats.files = stats.files + 1;
            Some(leaf(name, path, *size_bytes, "file"))
        },
        FsNode::Directory { name, path, listing } => {
            if depth >= MAX_DEPTH {
                stats.skipped = stats.skipped + 1;
                return None;
            }
            stats.directories = stats.directories + 1;
            match listing {
                None => {
                    stats.skipped = stats.skipped + 1;
                    Some(leaf(name, path, 0, "directory"))
                },
                Some(items) => {
                    let ghost d: nat = (depth + 1) as nat;
                    let ghost base = *stats;
                    let ghost all = raw_children(items@, d);
                    proof {
                        lemma_sorted_total(all, view_size());
                        lemma_shown_total(sorted_by(all, view_size()), path@);
                    }
                    let mut kids: Vec<StorageEntry> = Vec::new();
                    let mut i: usize = 0;
                    while i < items.len()
                        invariant
                            i <= items@.len(),
                            depth < 64,
                            d == depth + 1,
                            all == raw_children(items@, d),
                            key_total(all, view_size()) <= u64::MAX,
                            views(kids@) == raw_children(items@.take(i as int), d),
                            base.files + item_counts(items@, d).0 <= u64::MAX,
                            base.directories + item_counts(items@, d).1 <= u64::MAX,
                            base.skipped + item_counts(items@, d).2 <= u64::MAX,
                            stats.files == base.files + item_counts(items@.take(i as int), d).0,
                            stats.directories == base.directories + item_counts(
                                items@.take(i as int),
                                d,
                            ).1,
                            stats.skipped == base.skipped + item_counts(items@.take(i as int), d).2,
                            decreases_to!(*node => *items),
                        decreases items@.len() - i,
                    {
                        proof {
                            lemma_raw_step(items@, d, i as int);
                            lemma_prefix_bounds(items@, d, i + 1);
                        }
                        match &items[i] {
                            None => {
                                stats.skipped = stats.skipped + 1;
                            },
                            Some(n) => {
                                proof {
                                    assert(decreases_to!(*items => items@[i as int]));
                                    if produces(*n, d) {
                                        lemma_total_push(
                                            raw_children(items@.take(i as int), d),
                                            scan_view(*n, d),
                                        );
                                        lemma_total_nonneg(raw_children(items@.take(i as int), d));
                                    }
                                }
                                match scan_entry(n, depth + 1, stats) {
                                    Some(e) => {
                                        proof {
                                            lemma_views_push(kids@, e);
                                        }
                                        kids.push(e);
                                    },
                                    None => {},
                                }
                            },
                        }
                        i = i + 1;
                    }
                    proof {
                        assert(items@.take(items@.len() as int) =~= items@);
                        lemma_sorted_map(
                            kids@,
                            |e: StorageEntry| entry_view(e),
                            size_key::<StorageEntry>(),
                            view_size(),
                        );
                    }
                    let mut visible = sort_by_size(kids);
                    assert(views(visible@) == sorted_by(all, view_size()));
                    let ghost sorted = views(visible@);
                    if visible.len() > MAX_VISIBLE_CHILDREN {
                        let hidden = visible.split_off(MAX_VISIBLE_CHILDREN);
                        proof {
                            assert(views(hidden@) =~= sorted.skip(160));
                            assert(views(visible@) =~= sorted.take(160));
                        }
                        let hidden_size = total_size(&hidden);
                        let count = hidden.len();
                        let label = join3("其他 ", decimal_text(count as u64).as_str(), " 个项目");
                        let agg = StorageEntry {
                            name: label,
                            path: path.clone(),
                            size_bytes: hidden_size,
                            kind: "aggregate",
                            children: Vec::new(),
                        };
                        proof {
                            assert(entry_view(agg).children =~= Seq::<EntryView>::empty());
                            lemma_views_push(visible@, agg);
                        }
                        visible.push(agg);
                        assert(views(visible@) =~= shown(sorted, path@));
                    }
                    assert(views(visible@) == shown(sorted_by(all, view_size()), path@));
                    let size = total_size(&visible);
                    let r = StorageEntry {
                        name: name.clone(),
                        path: path.clone(),
                        size_bytes: size,
                        kind: "directory",
                        children: visible,
                    };
                    assert(entry_view(r).children =~= views(r.children@));
                    Some(r)
                },
            }
        },
        _ => {
            stats.skipped = stats.skipped + 1;
            None
        },
    }
}

/// Scans the tree under a root: `root_is_directory` says whether the root
/// was an existing absolute directory path; a root that yields no entry
/// cannot be read.
pub fn scan(root_is_directory: bool, tree: &FsNode) -> (r: Result<StorageScanResult, String>)
    requires
        produces(*tree, 0) ==> scan_view(*tree, 0).size <= u64::MAX,
        scan_counts(*tree, 0).0 <= u64::MAX,
        scan_counts(*tree, 0).1 <= u64::MAX,
        scan_counts(*tree, 0).2 <= u64::MAX,
    ensures
        !root_is_directory ==> (r matches Err(e) && e@ == "请选择一个存在的磁盘根目录"@),
        root_is_directory && !produces(*tree, 0) ==> (r matches Err(e) && e@ == "无法读取该磁盘"@),
        root_is_directory && produces(*tree, 0) ==> (r matches Ok(res) && entry_view(res.root)
            == scan_view(*tree, 0) && res.file_count == scan_counts(*tree, 0).0
            && res.directory_count == scan_counts(*tree, 0).1 && res.skipped_count
            == scan_counts(*tree, 0).2),
{
    if !root_is_directory {
        return Err(String::from_str("请选择一个存在的磁盘根目录"));
    }
    let mut stats = ScanStats { files: 0, directories: 0, skipped: 0 };
    match scan_entry(tree, 0, &mut stats) {
        None => Err(String::from_str("无法读取该磁盘")),
        Some(root) => Ok(
            StorageScanResult {
                root,
                file_count: stats.files,
                directory_count: stats.directories,
                skipped_count: stats.skipped,
            },
        ),
    }
}

/// Whether `c` separates the components of a path.
pub open spec fn is_separator(c: char) -> bool {
    c == '\\' || c == '/'
}

/// `p` without its trailing separators.
pub open spec fn trim_separators(p: Seq<char>) -> Seq<char>
    decreases p.len(),
{
    if p.len() > 0 && is_separator(p.last()) {
        trim_separators(p.drop_last())
    } else {
        p
    }
}

/// The characters of `p` after its last separator.
pub open spec fn last_piece(p: Seq<char>) -> Seq<char>
    decreases p.len(),
{
    if p.len() == 0 || is_separator(p.last()) {
        Seq::empty()
    } else {
        last_piece(p.drop_last()).push(p.last())
    }
}

/// The name shown for a path: its last component, or the whole path where
/// that is empty, "." or "..", or a drive prefix such as "C:".
pub open spec fn shown_name(p: Seq<char>) -> Seq<char> {
    let t = trim_separators(p);
    let piece = last_piece(t);
    if piece.len() == 0 || piece == "."@ || piece == ".."@ || (piece.len() == t.len() && piece.last()
        == ':') {
        p
    } else {
        piece
    }
}

/// The name shown for a path in the size tree.
pub fn display_name(path: &str) -> (r: String)
    ensures
        r@ == shown_name(path@),
{
    let v = crate::text::chars_of(path);
    let mut e: usize = v.len();
    assert(v@.take(v@.len() as int) =~= v@);
    while e > 0 && (v[e - 1] == '\\' || v[e - 1] == '/')
        invariant
            e <= v@.len(),
            v@ == path@,
            trim_separators(v@.take(e as int)) == trim_separators(v@),
        decreases e,
    {
        assert(v@.take(e as int).drop_last() =~= v@.take(e - 1));
        e = e - 1;
    }
    assert(trim_separators(v@.take(e as int)) == v@.take(e as int));
    let mut st: usize = e;
    while st > 0 && !(v[st - 1] == '\\' || v[st - 1] == '/')
        invariant
            st <= e <= v@.len(),
            v@ == path@,
            last_piece(v@.take(e as int)) == last_piece(v@.take(st as int)) + v@.subrange(
                st as int,
                e as int,
            ),
        decreases st,
    {
        assert(v@.take(st as int).drop_last() =~= v@.take(st - 1));
        assert(v@.take(st as int).last() == v@[st - 1]);
        assert(v@.subrange(st - 1, e as int) =~= seq![v@[st - 1]] + v@.subrange(st as int, e as int));
        assert(last_piece(v@.take(st - 1)).push(v@[st - 1]) + v@.subrange(st as int, e as int)
            =~= last_piece(v@.take(st - 1)) + v@.subrange(st - 1, e as int));
        st = st - 1;
    }
    assert(last_piece(v@.take(st as int)) =~= Seq::<char>::empty());
    let piece = path.substring_char(st, e);
    let whole = e - st == 0 || crate::text::str_eq(piece, ".") || crate::text::str_eq(piece, "..")
        || (st == 0 && v[e - 1] == ':');
    proof {
        let t = trim_separators(path@);
        assert(t =~= v@.take(e as int));
        assert(last_piece(t) =~= v@.subrange(st as int, e as int));
        assert(piece@ == last_piece(t));
    }
    if whole {
        path.to_owned()
    } else {
        piece.to_owned()
    }
}

/// A scanned directory is exactly as large as all the entries its listing
/// yields, hidden ones included, and lists at most 161 children: the
/// largest first, then at most one aggregate.
pub proof fn law_directory_size_is_its_contents(
    name: String,
    path: String,
    items: Vec<Option<FsNode>>,
    depth: nat,
)
    ensures
        ({
            let v = scan_view(
                FsNode::Directory { name, path, listing: Some(items) },
                depth,
            );
            let raw = raw_children(items@, depth + 1);
            &&& v.size == key_total(raw, view_size())
            &&& v.children.len() <= 161
            &&& forall|i: int, j: int|
                0 <= i < j < v.children.len() && j < 160 ==> v.children[i].size >= v.children[j].size
        }),
{
    let raw = raw_children(items@, depth + 1);
    let sorted = sorted_by(raw, view_size());
    crate::order::law_sorted_by_orders(raw, view_size());
    lemma_sorted_total(raw, view_size());
    lemma_shown_total(sorted, path@);
    let kids = shown(sorted, path@);
    assert forall|i: int, j: int| 0 <= i < j < kids.len() && j < 160 implies kids[i].size
        >= kids[j].size by {
        if sorted.len() > 160 {
            assert(kids[i] == sorted[i]);
            assert(kids[j] == sorted[j]);
        }
    }
    lemma_total_nonneg(kids);
}

} // verus!
