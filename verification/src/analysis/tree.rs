//! A hierarchical view of disk usage.
use vstd::prelude::*;

use crate::error::Error;
use vstd::multiset::Multiset;
use crate::paths::{
    child_path, components, extendable, is_normal, lemma_components_plain, lemma_key_component, may_follow,
    path_key, path_order_key, split_components, views,
};
use crate::scanner::metadata::{EntryKind, FileEntry};
use crate::scanner::walker::ScanReport;

verus! {

/// A hierarchical view of disk usage, suitable for treemap rendering or
/// drill-down navigation.
#[derive(Debug)]
pub struct SizeTree {
    pub root: DirNode,
    pub total_bytes: u64,
}

/// A directory with its subdirectories and files.
#[derive(Debug)]
pub struct DirNode {
    pub path: String,
    pub size: u64,
    pub file_count: u64,
    pub children: Vec<DirNode>,
    pub files: Vec<FileNode>,
}

/// A file inside a directory node.
#[derive(Debug, Clone)]
pub struct FileNode {
    pub path: String,
    pub size: u64,
}

impl DirNode {
    /// The node with an empty path and nothing in it.
    pub open spec fn is_empty_node(&self) -> bool {
        &&& self.path@.len() == 0
        &&& self.size == 0
        &&& self.file_count == 0
        &&& self.children@.len() == 0
        &&& self.files@.len() == 0
    }
}

impl Default for DirNode {
    fn default() -> (r: Self)
        ensures
            r.is_empty_node(),
    {
        DirNode { path: String::new(), size: 0, file_count: 0, children: Vec::new(), files: Vec::new() }
    }
}

impl Default for SizeTree {
    fn default() -> (r: Self)
        ensures
            r.root.is_empty_node(),
            r.total_bytes == 0,
    {
        SizeTree { root: DirNode::default(), total_bytes: 0 }
    }
}

/// A file the tree holds: a regular file whose path names something.
pub open spec fn is_tree_file(e: FileEntry) -> bool {
    e.kind == EntryKind::File && components(e.path@).len() > 0
}

/// The components of the directory that holds `e`.
pub open spec fn parent_key(e: FileEntry) -> Seq<Seq<char>> {
    path_key(e.path@).drop_last()
}

/// Total size of the files the tree holds.
pub open spec fn tree_bytes(entries: Seq<FileEntry>) -> nat
    decreases entries.len(),
{
    if entries.len() == 0 {
        0
    } else {
        tree_bytes(entries.drop_last()) + if is_tree_file(entries.last()) {
            entries.last().size as nat
        } else {
            0nat
        }
    }
}

/// Number of files the tree holds.
pub open spec fn tree_count(entries: Seq<FileEntry>) -> nat
    decreases entries.len(),
{
    if entries.len() == 0 {
        0
    } else {
        tree_count(entries.drop_last()) + if is_tree_file(entries.last()) {
            1nat
        } else {
            0nat
        }
    }
}

/// Sum of the sizes of the entries at `idxs`.
pub open spec fn idx_sum(entries: Seq<FileEntry>, idxs: Seq<usize>) -> nat
    decreases idxs.len(),
{
    if idxs.len() == 0 {
        0
    } else {
        idx_sum(entries, idxs.drop_last()) + entries[idxs.last() as int].size as nat
    }
}

/// Sum of the sizes of files.
pub open spec fn file_sum(fs: Seq<FileNode>) -> nat
    decreases fs.len(),
{
    if fs.len() == 0 {
        0
    } else {
        file_sum(fs.drop_last()) + fs.last().size as nat
    }
}

/// Sum of the sizes of directories.
pub open spec fn child_size_sum(cs: Seq<DirNode>) -> nat
    decreases cs.len(),
{
    if cs.len() == 0 {
        0
    } else {
        child_size_sum(cs.drop_last()) + cs.last().size as nat
    }
}

/// Sum of the file counts of directories.
pub open spec fn child_count_sum(cs: Seq<DirNode>) -> nat
    decreases cs.len(),
{
    if cs.len() == 0 {
        0
    } else {
        child_count_sum(cs.drop_last()) + cs.last().file_count as nat
    }
}

/// A file as the tree shows it: its path and size.
pub open spec fn entry_item(e: FileEntry) -> (Seq<char>, u64) {
    (e.path@, e.size)
}

pub open spec fn node_item(f: FileNode) -> (Seq<char>, u64) {
    (f.path@, f.size)
}

/// The files the tree holds, as path and size, each as often as it occurs.
pub open spec fn tree_items(entries: Seq<FileEntry>) -> Multiset<(Seq<char>, u64)>
    decreases entries.len(),
{
    if entries.len() == 0 {
        Multiset::empty()
    } else if is_tree_file(entries.last()) {
        tree_items(entries.drop_last()).insert(entry_item(entries.last()))
    } else {
        tree_items(entries.drop_last())
    }
}

/// The entries at `idxs`, as path and size.
pub open spec fn idx_items(entries: Seq<FileEntry>, idxs: Seq<usize>) -> Multiset<(Seq<char>, u64)>
    decreases idxs.len(),
{
    if idxs.len() == 0 {
        Multiset::empty()
    } else {
        idx_items(entries, idxs.drop_last()).insert(entry_item(entries[idxs.last() as int]))
    }
}

/// The files `fs`, as path and size.
pub open spec fn file_items(fs: Seq<FileNode>) -> Multiset<(Seq<char>, u64)>
    decreases fs.len(),
{
    if fs.len() == 0 {
        Multiset::empty()
    } else {
        file_items(fs.drop_last()).insert(node_item(fs.last()))
    }
}

/// The files of `d`'s own files and of the subtrees of its first `n`
/// subdirectories.
pub open spec fn items_below(d: DirNode, n: nat) -> Multiset<(Seq<char>, u64)>
    decreases d, n,
{
    if n == 0 || n > d.children@.len() {
        file_items(d.files@)
    } else {
        items_below(d, (n - 1) as nat).add(
            items_below(d.children@[n - 1], d.children@[n - 1].children@.len()),
        )
    }
}

/// Every file in the subtree of `d`, as path and size.
pub open spec fn node_items(d: DirNode) -> Multiset<(Seq<char>, u64)> {
    items_below(d, d.children@.len())
}

/// Every file in the subtrees of `cs`.
pub open spec fn seq_items(cs: Seq<DirNode>) -> Multiset<(Seq<char>, u64)>
    decreases cs.len(),
{
    if cs.len() == 0 {
        Multiset::empty()
    } else {
        seq_items(cs.drop_last()).add(node_items(cs.last()))
    }
}

proof fn lemma_items_below(d: DirNode, n: nat)
    requires
        n <= d.children@.len(),
    ensures
        items_below(d, n) == seq_items(d.children@.take(n as int)).add(file_items(d.files@)),
    decreases n,
{
    broadcast use vstd::multiset::group_multiset_axioms;

    if n == 0 {
        assert(d.children@.take(0) =~= Seq::<DirNode>::empty());
        assert(items_below(d, n) =~= seq_items(d.children@.take(n as int)).add(file_items(d.files@)));
    } else {
        lemma_items_below(d, (n - 1) as nat);
        assert(d.children@.take(n as int).drop_last() =~= d.children@.take(n - 1));
        assert(items_below(d, n) =~= seq_items(d.children@.take(n as int)).add(file_items(d.files@)));
    }
}

/// The files in the subtree of `d`: those of its subdirectories and its own.
pub proof fn lemma_node_items(d: DirNode)
    ensures
        node_items(d) == seq_items(d.children@).add(file_items(d.files@)),
{
    lemma_items_below(d, d.children@.len());
    assert(d.children@.take(d.children@.len() as int) =~= d.children@);
}

/// `p` names an entry directly inside the directory `dir`.
pub open spec fn directly_under(p: Seq<char>, dir: Seq<char>) -> bool {
    path_key(p).len() == path_key(dir).len() + 1 && path_key(p).drop_last() == path_key(dir)
}

/// Every directory of the subtree sums its subdirectories and files, holds
/// only entries directly inside it, and has no empty subdirectory and no
/// subdirectory twice.
pub open spec fn node_wf(d: DirNode) -> bool
    decreases d,
{
    &&& d.size == child_size_sum(d.children@) + file_sum(d.files@)
    &&& d.file_count == child_count_sum(d.children@) + d.files@.len()
    &&& forall|i: int| 0 <= i < d.files@.len() ==> directly_under(#[trigger] d.files@[i].path@, d.path@)
    &&& forall|i: int|
        0 <= i < d.children@.len() ==> directly_under(#[trigger] d.children@[i].path@, d.path@) && node_wf(
            d.children@[i],
        )
    &&& forall|i: int| 0 <= i < d.children@.len() ==> (#[trigger] d.children@[i]).file_count > 0
    &&& forall|i: int, j: int|
        0 <= i < j < d.children@.len() ==> path_key((#[trigger] d.children@[i]).path@) != path_key(
            (#[trigger] d.children@[j]).path@,
        )
}

/// The entry at `j` lies directly in the directory of the first `m`
/// components of `rk`, or below another subdirectory of it than `rk`.
pub open spec fn wit_at(entries: Seq<FileEntry>, j: usize, rk: Seq<Seq<char>>, m: int) -> bool {
    ||| parent_key(entries[j as int]).len() == m
    ||| (parent_key(entries[j as int]).len() > m && rk.len() > m && parent_key(entries[j as int])[m] != rk[m])
}

/// No deeper directory than the root holds every file of `entries`: one of
/// them lies directly in the root, or two lie below different
/// subdirectories of it.
pub open spec fn deepest_root(root: Seq<Seq<char>>, entries: Seq<FileEntry>) -> bool {
    let k = root.len() as int;
    ||| exists|i: int| 0 <= i < entries.len() && is_tree_file(#[trigger] entries[i]) && parent_key(entries[i]).len() == k
    ||| exists|i: int, j: int|
        0 <= i < entries.len() && 0 <= j < entries.len() && is_tree_file(#[trigger] entries[i]) && is_tree_file(
            #[trigger] entries[j],
        ) && parent_key(entries[i]).len() > k && parent_key(entries[j]).len() > k && parent_key(entries[i])[k]
            != parent_key(entries[j])[k]
}

/// `t` is the tree of the files of `entries`: well formed, rooted at the
/// deepest directory that holds every file, holding each of those files
/// once, with their total size and number.
pub open spec fn is_tree_of(t: SizeTree, entries: Seq<FileEntry>) -> bool {
    &&& node_wf(t.root)
    &&& tree_count(entries) > 0 ==> deepest_root(path_key(t.root.path@), entries)
    &&& node_items(t.root) == tree_items(entries)
    &&& t.total_bytes == t.root.size
    &&& t.root.size == tree_bytes(entries)
    &&& t.root.file_count == tree_count(entries)
    &&& forall|i: int|
        0 <= i < entries.len() && is_tree_file(#[trigger] entries[i]) ==> path_key(t.root.path@).is_prefix_of(
            parent_key(entries[i]),
        )
}

/// Index `j` belongs below the directory with components `key`, at most
/// `budget` levels deeper than it.
pub open spec fn node_member(entries: Seq<FileEntry>, keys: Seq<Vec<String>>, j: usize, key: Seq<Seq<char>>, budget: nat) -> bool {
    &&& j < entries.len()
    &&& is_tree_file(entries[j as int])
    &&& views(keys[j as int]@) == path_key(entries[j as int].path@)
    &&& parent_key(entries[j as int]).len() >= key.len()
    &&& parent_key(entries[j as int]).take(key.len() as int) == key
    &&& parent_key(entries[j as int]).len() <= key.len() + budget
}

proof fn lemma_file_sum_prefix(fs: Seq<FileNode>, m: int)
    requires
        0 <= m <= fs.len(),
    ensures
        file_sum(fs.take(m)) <= file_sum(fs),
    decreases fs.len(),
{
    if m < fs.len() {
        assert(fs.drop_last().take(m) =~= fs.take(m));
        lemma_file_sum_prefix(fs.drop_last(), m);
    } else {
        assert(fs.take(m) =~= fs);
    }
}

proof fn lemma_tree_file_key(e: FileEntry)
    requires
        is_tree_file(e),
    ensures
        path_key(e.path@).len() >= 1,
        path_key(e.path@).len() == parent_key(e).len() + 1,
{
}

/// The directory of the files at `idxs`, whose path is `path` (with `depth`
/// components): its files are those directly inside it, its subdirectories
/// those of the next component, in the order of their first file. `None`
/// when the sizes add up past `u64::MAX`.
fn build_node(
    entries: &Vec<FileEntry>,
    keys: &Vec<Vec<String>>,
    idxs: Vec<usize>,
    path: String,
    depth: usize,
    budget: usize,
) -> (r: Option<DirNode>)
    requires
        keys@.len() == entries@.len(),
        extendable(path@),
        path_key(path@).len() == depth,
        depth == 0 ==> path@.len() == 0,
        forall|t: int|
            0 <= t < idxs@.len() ==> node_member(entries@, keys@, #[trigger] idxs@[t], path_key(path@), budget as nat),
    ensures
        match r {
            Some(d) => node_wf(d) && d.path@ == path@ && d.size == idx_sum(entries@, idxs@) && d.file_count
                == idxs@.len() && node_items(d) == idx_items(entries@, idxs@),
            None => idx_sum(entries@, idxs@) > u64::MAX,
        },
    decreases budget,
{
    let ghost key = path_key(path@);
    // Files directly inside, and the rest.
    let mut files: Vec<FileNode> = Vec::new();
    let mut rest: Vec<usize> = Vec::new();
    let mut t: usize = 0;
    assert(idxs@.take(0) =~= Seq::<usize>::empty());
    while t < idxs.len()
        invariant
            t <= idxs@.len(),
            keys@.len() == entries@.len(),
            key == path_key(path@),
            key.len() == depth,
            forall|q: int| 0 <= q < idxs@.len() ==> node_member(entries@, keys@, #[trigger] idxs@[q], key, budget as nat),
            idx_sum(entries@, idxs@.take(t as int)) == file_sum(files@) + idx_sum(entries@, rest@),
            idx_items(entries@, idxs@.take(t as int)) == file_items(files@).add(idx_items(entries@, rest@)),
            t == files@.len() + rest@.len(),
            forall|q: int| 0 <= q < files@.len() ==> directly_under(#[trigger] files@[q].path@, path@),
            forall|q: int|
                0 <= q < rest@.len() ==> node_member(entries@, keys@, #[trigger] rest@[q], key, budget as nat)
                    && parent_key(entries@[rest@[q] as int]).len() > depth,
        decreases idxs.len() - t,
    {
        let j = idxs[t];
        assert(node_member(entries@, keys@, idxs@[t as int], key, budget as nat));
        let e = &entries[j];
        proof {
            lemma_tree_file_key(*e);
            assert(idxs@.take(t + 1).drop_last() =~= idxs@.take(t as int));
        }
        assert(views(keys@[j as int]@).len() == keys@[j as int]@.len());
        let ghost ms_files = file_items(files@);
        let ghost ms_rest = idx_items(entries@, rest@);
        if keys[j].len() - 1 == depth {
            let ghost before = files@;
            files.push(FileNode { path: e.path.clone(), size: e.size });
            proof {
                assert(parent_key(*e) =~= parent_key(*e).take(depth as int));
                assert(files@.drop_last() == before);
                assert(node_item(files@.last()) == entry_item(*e));
                broadcast use vstd::multiset::group_multiset_axioms;
                assert(ms_files.add(ms_rest).insert(entry_item(*e)) =~= ms_files.insert(entry_item(*e)).add(ms_rest));
            }
        } else {
            let ghost before = rest@;
            rest.push(j);
            assert(rest@.drop_last() == before);
            proof {
                broadcast use vstd::multiset::group_multiset_axioms;
                assert(ms_files.add(ms_rest).insert(entry_item(*e)) =~= ms_files.add(ms_rest.insert(entry_item(*e))));
            }
        }
        t += 1;
    }
    assert(idxs@.take(idxs@.len() as int) =~= idxs@);
    // The size of the files directly inside.
    let mut fsum: u64 = 0;
    let mut m: usize = 0;
    assert(files@.take(0) =~= Seq::<FileNode>::empty());
    while m < files.len()
        invariant
            m <= files@.len(),
            fsum == file_sum(files@.take(m as int)),
            idx_sum(entries@, idxs@) == file_sum(files@) + idx_sum(entries@, rest@),
            idx_items(entries@, idxs@) == file_items(files@).add(idx_items(entries@, rest@)),
        decreases files.len() - m,
    {
        assert(files@.take(m + 1).drop_last() =~= files@.take(m as int));
        assert(files@.take(m + 1).last() == files@[m as int]);
        match fsum.checked_add(files[m].size) {
            Some(v) => {
                fsum = v;
            },
            None => {
                proof {
                    lemma_file_sum_prefix(files@, m + 1);
                }
                return None;
            },
        }
        m += 1;
    }
    assert(files@.take(files@.len() as int) =~= files@);
    // One subdirectory per next component, in the order of its first file.
    let mut children: Vec<DirNode> = Vec::new();
    let ghost mut comps: Seq<Seq<char>> = Seq::empty();
    let mut total: u64 = fsum;
    let total_idx = idxs.len();
    let mut count: u64 = files.len() as u64;
    while rest.len() > 0
        invariant
            keys@.len() == entries@.len(),
            extendable(path@),
            key == path_key(path@),
            key.len() == depth,
            depth == 0 ==> path@.len() == 0,
            idx_sum(entries@, idxs@) == total + idx_sum(entries@, rest@),
            idxs@.len() == count + rest@.len(),
            idxs@.len() == total_idx,
            total == child_size_sum(children@) + file_sum(files@),
            count == child_count_sum(children@) + files@.len(),
            idx_items(entries@, idxs@) == seq_items(children@).add(file_items(files@)).add(idx_items(entries@, rest@)),
            forall|q: int| 0 <= q < files@.len() ==> directly_under(#[trigger] files@[q].path@, path@),
            forall|q: int|
                0 <= q < children@.len() ==> directly_under(#[trigger] children@[q].path@, path@) && node_wf(
                    children@[q],
                ),
            forall|q: int|
                0 <= q < rest@.len() ==> node_member(entries@, keys@, #[trigger] rest@[q], key, budget as nat)
                    && parent_key(entries@[rest@[q] as int]).len() > depth,
            comps.len() == children@.len(),
            forall|q: int|
                0 <= q < children@.len() ==> path_key((#[trigger] children@[q]).path@) == key.push(comps[q])
                    && children@[q].file_count > 0,
            forall|q1: int, q2: int| 0 <= q1 < q2 < comps.len() ==> #[trigger] comps[q1] != #[trigger] comps[q2],
            forall|q: int, p: int|
                0 <= q < rest@.len() && 0 <= p < comps.len() ==> parent_key(entries@[#[trigger] rest@[q] as int])[depth as int]
                    != #[trigger] comps[p],
        decreases rest.len(),
    {
        let first = rest[0];
        assert(node_member(entries@, keys@, rest@[0], key, budget as nat));
        proof {
            lemma_tree_file_key(entries@[first as int]);
        }
        let cc: String = keys[first][depth].clone();
        let ghost ckey = key.push(cc@);
        proof {
            let pk = parent_key(entries@[first as int]);
            assert(views(keys@[first as int]@)[depth as int] == keys@[first as int]@[depth as int]@);
            assert(cc@ == pk[depth as int]);
            assert(pk.take(depth as int) == key);
            assert(pk.take(depth + 1) =~= key.push(cc@));
            lemma_key_component(entries@[first as int].path@, depth as int);
            assert(path_key(entries@[first as int].path@)[depth as int] == cc@);
            if depth == 0 {
                assert(path@.len() == 0);
            }
        }
        assert(may_follow(path@, cc@));
        assert(budget >= 1);
        let mut group: Vec<usize> = Vec::new();
        let mut others: Vec<usize> = Vec::new();
        let mut u: usize = 0;
        assert(rest@.take(0) =~= Seq::<usize>::empty());
        while u < rest.len()
            invariant
                u <= rest@.len(),
                keys@.len() == entries@.len(),
                key.len() == depth,
                ckey == key.push(cc@),
                budget >= 1,
                rest@.len() > 0,
                rest@[0] == first,
                keys@[first as int]@[depth as int]@ == cc@,
                depth < keys@[first as int]@.len(),
                forall|q: int|
                    0 <= q < rest@.len() ==> node_member(entries@, keys@, #[trigger] rest@[q], key, budget as nat)
                        && parent_key(entries@[rest@[q] as int]).len() > depth,
                idx_sum(entries@, rest@.take(u as int)) == idx_sum(entries@, group@) + idx_sum(entries@, others@),
                idx_items(entries@, rest@.take(u as int)) == idx_items(entries@, group@).add(idx_items(entries@, others@)),
                u == group@.len() + others@.len(),
                u > 0 ==> group@.len() > 0,
                forall|q: int|
                    0 <= q < group@.len() ==> node_member(entries@, keys@, #[trigger] group@[q], ckey, (budget - 1) as nat),
                forall|q: int|
                    0 <= q < others@.len() ==> node_member(entries@, keys@, #[trigger] others@[q], key, budget as nat)
                        && parent_key(entries@[others@[q] as int]).len() > depth,
                forall|q: int|
                    0 <= q < others@.len() ==> parent_key(entries@[#[trigger] others@[q] as int])[depth as int] != cc@,
                forall|q: int, p: int|
                    0 <= q < rest@.len() && 0 <= p < comps.len() ==> parent_key(entries@[#[trigger] rest@[q] as int])[depth as int]
                        != #[trigger] comps[p],
                forall|q: int, p: int|
                    0 <= q < others@.len() && 0 <= p < comps.len() ==> parent_key(entries@[#[trigger] others@[q] as int])[depth as int]
                        != #[trigger] comps[p],
            decreases rest.len() - u,
        {
            let j = rest[u];
            assert(node_member(entries@, keys@, rest@[u as int], key, budget as nat));
            proof {
                lemma_tree_file_key(entries@[j as int]);
                assert(rest@.take(u + 1).drop_last() =~= rest@.take(u as int));
            }
            let same = crate::text::str_eq(keys[j][depth].as_str(), cc.as_str());
            proof {
                let pk = parent_key(entries@[j as int]);
                assert(views(keys@[j as int]@)[depth as int] == keys@[j as int]@[depth as int]@);
                assert(keys@[j as int]@[depth as int]@ == pk[depth as int]);
                assert(pk.take(depth as int) == key);
                if same {
                    assert(pk.take(depth + 1) =~= ckey);
                }
            }
            let ghost ms_g = idx_items(entries@, group@);
            let ghost ms_o = idx_items(entries@, others@);
            let ghost it = entry_item(entries@[j as int]);
            if same {
                let ghost before = group@;
                group.push(j);
                assert(group@.drop_last() == before);
                proof {
                    broadcast use vstd::multiset::group_multiset_axioms;
                    assert(ms_g.add(ms_o).insert(it) =~= ms_g.insert(it).add(ms_o));
                }
            } else {
                let ghost before = others@;
                others.push(j);
                assert(others@.drop_last() == before);
                proof {
                    let pk = parent_key(entries@[j as int]);
                    assert(pk[depth as int] != cc@);
                    assert forall|q: int, p: int| 0 <= q < others@.len() && 0 <= p < comps.len() implies parent_key(
                        entries@[#[trigger] others@[q] as int],
                    )[depth as int] != #[trigger] comps[p] by {
                        if q < before.len() {
                            assert(others@[q] == before[q]);
                        } else {
                            assert(others@[q] == rest@[u as int]);
                        }
                    }
                }
                proof {
                    broadcast use vstd::multiset::group_multiset_axioms;
                    assert(ms_g.add(ms_o).insert(it) =~= ms_g.add(ms_o.insert(it)));
                }
            }
            u += 1;
        }
        assert(rest@.take(rest@.len() as int) =~= rest@);
        let klen = keys[first].len();
        assert(depth < klen);
        let child_text = child_path(path.as_str(), cc.as_str());
        let child = match build_node(entries, keys, group, child_text, depth + 1, budget - 1) {
            Some(d) => d,
            None => {
                return None;
            },
        };
        let new_total = match total.checked_add(child.size) {
            Some(v) => v,
            None => {
                return None;
            },
        };
        let ghost before = children@;
        let ghost cpath = child.path@;
        let ghost ms_child = node_items(child);
        let ghost cfc = child.file_count;
        assert(child.file_count as nat <= rest@.len());
        total = new_total;
        count = count + child.file_count;
        children.push(child);
        proof {
            assert(children@.drop_last() == before);
            let old_comps = comps;
            assert(parent_key(entries@[rest@[0] as int])[depth as int] == cc@);
            comps = comps.push(cc@);
            assert(cfc > 0);
            assert forall|q: int| 0 <= q < children@.len() implies path_key((#[trigger] children@[q]).path@) == key.push(
                comps[q],
            ) && children@[q].file_count > 0 by {
                if q < before.len() {
                    assert(children@[q] == before[q]);
                }
            }
            assert forall|q1: int, q2: int| 0 <= q1 < q2 < comps.len() implies #[trigger] comps[q1] != #[trigger] comps[q2] by {
                if q2 == old_comps.len() {
                    assert(parent_key(entries@[rest@[0] as int])[depth as int] != old_comps[q1]);
                } else {
                    assert(comps[q1] == old_comps[q1]);
                    assert(comps[q2] == old_comps[q2]);
                }
            }
            assert(seq_items(children@) == seq_items(before).add(ms_child));
            broadcast use vstd::multiset::group_multiset_axioms;
            assert(seq_items(before).add(file_items(files@)).add(ms_child.add(idx_items(entries@, others@)))
                =~= seq_items(children@).add(file_items(files@)).add(idx_items(entries@, others@)));
            assert(key.push(cc@).drop_last() =~= key);
            assert(directly_under(cpath, path@));
            assert forall|q: int| 0 <= q < children@.len() implies directly_under(#[trigger] children@[q].path@, path@)
                && node_wf(children@[q]) by {
                if q < before.len() {
                    assert(children@[q] == before[q]);
                }
            }
        }
        rest = others;
        proof {
            assert forall|q: int, p: int| 0 <= q < rest@.len() && 0 <= p < comps.len() implies parent_key(
                entries@[#[trigger] rest@[q] as int],
            )[depth as int] != #[trigger] comps[p] by {
                if p == comps.len() - 1 {
                    assert(comps[p] == cc@);
                } else {
                    assert(comps[p] == comps.drop_last()[p]);
                }
            }
        }
    }
    let d = DirNode { path, size: total, file_count: count, children, files };
    assert(rest@.len() == 0);
    assert(idx_sum(entries@, rest@) == 0);
    proof {
        lemma_node_items(d);
        broadcast use vstd::multiset::group_multiset_axioms;
        assert(idx_items(entries@, rest@) =~= Multiset::empty());
        assert(node_items(d) =~= idx_items(entries@, idxs@));
    }
    assert(d.size == child_size_sum(d.children@) + file_sum(d.files@));
    assert(d.file_count == child_count_sum(d.children@) + d.files@.len());
    assert(forall|i: int| 0 <= i < d.files@.len() ==> directly_under(#[trigger] d.files@[i].path@, d.path@));
    assert forall|i: int, j: int| 0 <= i < j < d.children@.len() implies path_key((#[trigger] d.children@[i]).path@)
        != path_key((#[trigger] d.children@[j]).path@) by {
        assert(key.push(comps[i]).last() != key.push(comps[j]).last());
    }
    assert(node_wf(d));
    Some(d)
}

/// Build a hierarchical tree from a flat scan report by folding the paths of
/// its regular files into a trie keyed on path components. The root is the
/// deepest directory that holds every file; each directory holds its files
/// and one subdirectory per further component, in scan order. Fails when the
/// sizes add up past `u64::MAX`.
pub fn build(report: &ScanReport) -> (r: Result<SizeTree, Error>)
    ensures
        match r {
            Ok(t) => is_tree_of(t, report.entries@),
            Err(e) => tree_bytes(report.entries@) > u64::MAX && e is Scan,
        },
{
    let entries = &report.entries;
    let n = entries.len();
    let mut keys: Vec<Vec<String>> = Vec::new();
    let mut idxs: Vec<usize> = Vec::new();
    let mut i: usize = 0;
    assert(entries@.take(0) =~= Seq::<FileEntry>::empty());
    while i < n
        invariant
            n == entries@.len(),
            i <= n,
            keys@.len() == i,
            forall|q: int| 0 <= q < i ==> views(#[trigger] keys@[q]@) == path_key(entries@[q].path@),
            idx_sum(entries@, idxs@) == tree_bytes(entries@.take(i as int)),
            idx_items(entries@, idxs@) == tree_items(entries@.take(i as int)),
            idxs@.len() == tree_count(entries@.take(i as int)),
            forall|q: int| 0 <= q < idxs@.len() ==> #[trigger] idxs@[q] < i && is_tree_file(entries@[idxs@[q] as int]),
            forall|q: int| 0 <= q < i && is_tree_file(#[trigger] entries@[q]) ==> idxs@.contains(q as usize),
        decreases n - i,
    {
        let e = &entries[i];
        keys.push(path_order_key(e.path.as_str()));
        assert(entries@.take(i + 1).drop_last() =~= entries@.take(i as int));
        let ghost before = idxs@;
        if e.kind == EntryKind::File && split_components(e.path.as_str()).len() > 0 {
            idxs.push(i);
            assert(idxs@.drop_last() == before);
            assert(idxs@[before.len() as int] == i);
        }
        proof {
            assert forall|q: int| 0 <= q < i + 1 && is_tree_file(#[trigger] entries@[q]) implies idxs@.contains(q as usize) by {
                if q < i {
                    let w = choose|w: int| 0 <= w < before.len() && before[w] == q as usize;
                    assert(idxs@[w] == before[w]);
                } else {
                    assert(idxs@[before.len() as int] == i);
                }
            }
        }
        i += 1;
    }
    assert(entries@.take(n as int) =~= entries@);
    if idxs.len() == 0 {
        let t = SizeTree::default();
        assert(t.root.children@.len() == 0 && t.root.files@.len() == 0);
        assert(t.root.files@ =~= Seq::<FileNode>::empty());
        return Ok(t);
    }
    // The deepest directory that holds every file, and the deepest file.
    let first = idxs[0];
    assert(is_tree_file(entries@[idxs@[0] as int]));
    proof {
        lemma_tree_file_key(entries@[first as int]);
    }
    let root_key = &keys[first];
    let mut m: usize = root_key.len() - 1;
    let mut deepest: usize = m;
    let ghost rk = parent_key(entries@[first as int]);
    let mut t: usize = 0;
    // A file that shows that no deeper directory holds every file: it lies
    // directly in the directory of `m` components, or below another
    // subdirectory of it than the first file.
    let ghost mut wit: int = 0;
    while t < idxs.len()
        invariant
            rk.len() == m || (0 <= wit < t && wit_at(entries@, idxs@[wit], rk, m as int)),
            keys@.len() == entries@.len(),
            root_key == keys@[first as int],
            views(root_key@) == path_key(entries@[first as int].path@),
            rk == parent_key(entries@[first as int]),
            path_key(entries@[first as int].path@).len() == rk.len() + 1,
            root_key@.len() == rk.len() + 1,
            m <= rk.len(),
            m <= deepest,
            t <= idxs@.len(),
            forall|q: int| 0 <= q < keys@.len() ==> views(#[trigger] keys@[q]@) == path_key(entries@[q].path@),
            forall|q: int| 0 <= q < idxs@.len() ==> #[trigger] idxs@[q] < entries@.len() && is_tree_file(entries@[idxs@[q] as int]),
            forall|q: int|
                0 <= q < t ==> parent_key(entries@[#[trigger] idxs@[q] as int]).len() >= m
                    && parent_key(entries@[idxs@[q] as int]).take(m as int) == rk.take(m as int)
                    && parent_key(entries@[idxs@[q] as int]).len() <= deepest,
        decreases idxs.len() - t,
    {
        let j = idxs[t];
        proof {
            lemma_tree_file_key(entries@[j as int]);
        }
        let kj = &keys[j];
        assert(views(kj@).len() == kj@.len());
        assert(views(root_key@).len() == root_key@.len());
        let lj = kj.len() - 1;
        if lj > deepest {
            deepest = lj;
        }
        let mut c: usize = 0;
        while c < m && c < lj && crate::text::str_eq(kj[c].as_str(), root_key[c].as_str())
            invariant
                c <= m,
                c <= lj,
                kj@.len() == lj + 1,
                root_key@.len() == rk.len() + 1,
                rk == parent_key(entries@[first as int]),
                path_key(entries@[first as int].path@).len() == rk.len() + 1,
                m <= rk.len(),
                lj == parent_key(entries@[j as int]).len(),
                views(kj@) == path_key(entries@[j as int].path@),
                views(root_key@) == path_key(entries@[first as int].path@),
                forall|q: int| 0 <= q < c ==> parent_key(entries@[j as int])[q] == rk[q],
            decreases m - c,
        {
            assert(views(kj@)[c as int] == kj@[c as int]@);
            assert(views(root_key@)[c as int] == root_key@[c as int]@);
            assert(parent_key(entries@[j as int])[c as int] == path_key(entries@[j as int].path@)[c as int]);
            assert(rk[c as int] == path_key(entries@[first as int].path@)[c as int]);
            c += 1;
        }
        proof {
            let pj = parent_key(entries@[j as int]);
            assert(pj.take(c as int) =~= rk.take(c as int));
            assert forall|q: int| 0 <= q < t implies parent_key(entries@[#[trigger] idxs@[q] as int]).take(c as int)
                == rk.take(c as int) by {
                let pq = parent_key(entries@[idxs@[q] as int]);
                assert(pq.take(c as int) =~= pq.take(m as int).take(c as int));
                assert(rk.take(c as int) =~= rk.take(m as int).take(c as int));
            }
        }
        proof {
            let pj = parent_key(entries@[j as int]);
            if c < m {
                wit = t as int;
                if c < lj {
                    assert(views(kj@)[c as int] == kj@[c as int]@);
                    assert(views(root_key@)[c as int] == root_key@[c as int]@);
                    assert(pj[c as int] == path_key(entries@[j as int].path@)[c as int]);
                    assert(rk[c as int] == path_key(entries@[first as int].path@)[c as int]);
                    assert(pj[c as int] != rk[c as int]);
                }
                assert(wit_at(entries@, idxs@[wit], rk, c as int));
            }
        }
        m = c;
        t += 1;
    }
    // The root path, one component at a time.
    let mut root_text = String::new();
    let mut q: usize = 0;
    proof {
        crate::paths::lemma_path_key_empty();
    }
    while q < m
        invariant
            q <= m,
            m <= rk.len(),
            rk == parent_key(entries@[first as int]),
            views(root_key@) == path_key(entries@[first as int].path@),
            keys@.len() == entries@.len(),
            root_key == keys@[first as int],
            is_tree_file(entries@[first as int]),
            extendable(root_text@),
            path_key(root_text@) == rk.take(q as int),
            q == 0 ==> root_text@.len() == 0,
        decreases m - q,
    {
        proof {
            lemma_tree_file_key(entries@[first as int]);
            lemma_key_component(entries@[first as int].path@, q as int);
            assert(views(root_key@)[q as int] == root_key@[q as int]@);
        }
        let next = child_path(root_text.as_str(), root_key[q].as_str());
        assert(rk.take(q + 1) =~= rk.take(q as int).push(rk[q as int]));
        root_text = next;
        q += 1;
    }
    proof {
        assert forall|t: int| 0 <= t < idxs@.len() implies node_member(
            entries@,
            keys@,
            #[trigger] idxs@[t],
            path_key(root_text@),
            (deepest - m) as nat,
        ) by {
            lemma_tree_file_key(entries@[idxs@[t] as int]);
        }
    }
    let ghost idxs_all = idxs;
    let ghost root_text_v = root_text@;
    match build_node(entries, &keys, idxs, root_text, m, deepest - m) {
        Some(root) => {
            proof {
                assert forall|i: int|
                    0 <= i < entries@.len() && is_tree_file(#[trigger] entries@[i]) implies path_key(root.path@).is_prefix_of(
                        parent_key(entries@[i]),
                    ) by {
                    assert(idxs_all@.contains(i as usize));
                    let w = choose|w: int| 0 <= w < idxs_all@.len() && idxs_all@[w] == i as usize;
                    assert(node_member(entries@, keys@, idxs_all@[w], path_key(root_text_v), (deepest - m) as nat));
                }
            }
            Ok(SizeTree { total_bytes: root.size, root })
        },
        None => Err(Error::Scan(String::from_str("the sizes of the scanned files add up past u64::MAX"))),
    }
}

} // verus!
