//! The integer side of the squarified treemap: selecting, ordering and
//! aggregating the items of a directory node, their labels and colors, and
//! the check on the output path. The geometry itself is computed by the
//! renderer from the ordered items.
use vstd::prelude::*;

use crate::analysis::tree::{DirNode, SizeTree};
use crate::error::Error;
use crate::ordering::{
    goes_before, insert_pos, is_ranked, lemma_sort_ranked_is_ranked, sort_by_rank, sort_ranked,
    Ranked,
};
use crate::paths::{extension_of, file_name_of, last_dot};
use vstd::string::StringExecFns;

verus! {

broadcast use vstd::seq_lib::group_seq_properties;

/// How a treemap is drawn.
#[derive(Debug, Clone)]
pub struct TreemapOptions {
    pub width: u32,
    pub height: u32,
    pub max_tiles: usize,
    /// Color tiles by file extension if true; otherwise by the whole label.
    pub color_by_extension: bool,
}

impl Default for TreemapOptions {
    fn default() -> (r: Self)
        ensures
            r.width == 1600,
            r.height == 1000,
            r.max_tiles == 500,
            r.color_by_extension,
    {
        TreemapOptions { width: 1600, height: 1000, max_tiles: 500, color_by_extension: true }
    }
}

/// What a treemap item stands for: a subdirectory or a file of the node (by
/// index), or the aggregate of the long tail cut off by `max_tiles`.
#[derive(Debug, Clone, Copy, PartialEq, Eq, Structural)]
pub enum ItemSource {
    Dir(usize),
    File(usize),
    Other,
}

/// One item to be laid out as a tile.
#[derive(Debug, Clone, Copy, PartialEq, Eq, Structural)]
pub struct TreemapItem {
    pub source: ItemSource,
    pub size: u64,
}

impl Ranked for TreemapItem {
    open spec fn rank(&self) -> int {
        self.size as int
    }

    fn rank_value(&self) -> (r: u64) {
        self.size
    }
}

/// The subdirectories and then the files of `node`, as items.
pub open spec fn all_items(node: DirNode) -> Seq<TreemapItem> {
    Seq::new(
        node.children@.len(),
        |i: int| TreemapItem { source: ItemSource::Dir(i as usize), size: node.children@[i].size },
    ) + Seq::new(
        node.files@.len(),
        |i: int| TreemapItem { source: ItemSource::File(i as usize), size: node.files@[i].size },
    )
}

/// The predicate "has a positive size".
pub open spec fn nonempty_item() -> spec_fn(TreemapItem) -> bool {
    |it: TreemapItem| it.size > 0
}

/// The items of `node` that take up space, subdirectories first.
pub open spec fn node_items(node: DirNode) -> Seq<TreemapItem> {
    all_items(node).filter(nonempty_item())
}

/// Sum of the sizes of items.
pub open spec fn total_size(s: Seq<TreemapItem>) -> nat
    decreases s.len(),
{
    if s.len() == 0 {
        0
    } else {
        total_size(s.drop_last()) + s.last().size as nat
    }
}

/// The items of `node` largest first, with everything past `max_tiles - 1`
/// items folded into one aggregate item when there are more than
/// `max_tiles` (and `max_tiles` is not 0).
pub open spec fn layout_items_of(node: DirNode, width: u32, height: u32, max_tiles: usize) -> Seq<TreemapItem> {
    let items = sort_ranked(node_items(node), true);
    if width == 0 || height == 0 || items.len() == 0 {
        Seq::empty()
    } else if max_tiles > 0 && items.len() > max_tiles {
        let keep = items.subrange(0, max_tiles - 1);
        let tail = items.subrange(max_tiles - 1, items.len() as int);
        sort_ranked(
            keep.push(TreemapItem { source: ItemSource::Other, size: total_size(tail) as u64 }),
            true,
        )
    } else {
        items
    }
}

/// The long tail that [`layout_items_of`] folds into one item fits in `u64`.
pub open spec fn tail_fits(node: DirNode, max_tiles: usize) -> bool {
    let items = sort_ranked(node_items(node), true);
    max_tiles > 0 && items.len() > max_tiles ==> total_size(
        items.subrange(max_tiles - 1, items.len() as int),
    ) <= u64::MAX
}

/// The items of a treemap of the immediate children (subdirectories and
/// files) of `tree.root`, in the order in which they are laid out.
pub fn layout(tree: &SizeTree, opts: &TreemapOptions) -> (r: Vec<TreemapItem>)
    requires
        opts.width > 0 && opts.height > 0 ==> tail_fits(tree.root, opts.max_tiles),
    ensures
        r@ == layout_items_of(tree.root, opts.width, opts.height, opts.max_tiles),
{
    layout_node(&tree.root, opts)
}

/// The items of `node` that space-taking tiles stand for, largest first;
/// when there are more than `opts.max_tiles` of them (and it is not 0), the
/// smallest are folded into one aggregate item so that exactly
/// `opts.max_tiles` remain. Nothing is laid out on a canvas of zero width or
/// height.
pub fn layout_node(node: &DirNode, opts: &TreemapOptions) -> (r: Vec<TreemapItem>)
    requires
        opts.width > 0 && opts.height > 0 ==> tail_fits(*node, opts.max_tiles),
    ensures
        r@ == layout_items_of(*node, opts.width, opts.height, opts.max_tiles),
{
    if opts.width == 0 || opts.height == 0 {
        return Vec::new();
    }
    let items = dir_items(node);
    if items.len() == 0 {
        proof { crate::ordering::lemma_sort_ranked_is_ranked(items@, true); }
        return Vec::new();
    }
    let mut items = sort_by_rank(items, true);
    let ghost sorted = items@;
    let max_tiles = opts.max_tiles;
    if max_tiles > 0 && items.len() > max_tiles {
        let mut tail_sum: u64 = 0;
        let mut k: usize = max_tiles - 1;
        proof { lemma_total_split(sorted, max_tiles - 1); }
        while k < items.len()
            invariant
                items@ == sorted,
                max_tiles - 1 <= k <= sorted.len(),
                max_tiles > 0,
                total_size(sorted.subrange(max_tiles - 1, sorted.len() as int)) <= u64::MAX,
                tail_sum == total_size(sorted.subrange(max_tiles - 1, k as int)),
            decreases sorted.len() - k,
        {
            proof {
                lemma_total_mono(sorted.subrange(max_tiles - 1, sorted.len() as int), k + 1 - (max_tiles - 1));
                assert(sorted.subrange(max_tiles - 1, sorted.len() as int).subrange(0, k + 1 - (max_tiles - 1))
                    =~= sorted.subrange(max_tiles - 1, k + 1));
                assert(sorted.subrange(max_tiles - 1, k + 1).drop_last() =~= sorted.subrange(max_tiles - 1, k as int));
            }
            tail_sum = tail_sum + items[k].size;
            k += 1;
        }
        items.truncate(max_tiles - 1);
        items.push(TreemapItem { source: ItemSource::Other, size: tail_sum });
        let out = sort_by_rank(items, true);
        return out;
    }
    items
}

/// Whether the long tail of `node` that a layout with `max_tiles` folds
/// into one item fits in `u64`, so that [`layout_node`] can be called.
pub fn layout_fits(node: &DirNode, max_tiles: usize) -> (r: bool)
    ensures
        r == tail_fits(*node, max_tiles),
{
    let items = sort_by_rank(dir_items(node), true);
    let ghost sorted = items@;
    if max_tiles == 0 || items.len() <= max_tiles {
        return true;
    }
    let mut tail_sum: u64 = 0;
    let mut k: usize = max_tiles - 1;
    let ghost tail = sorted.subrange(max_tiles - 1, sorted.len() as int);
    assert(sorted.subrange(max_tiles - 1, max_tiles - 1) =~= Seq::<TreemapItem>::empty());
    while k < items.len()
        invariant
            items@ == sorted,
            sorted == sort_ranked(node_items(*node), true),
            max_tiles > 0,
            max_tiles - 1 <= k <= sorted.len(),
            tail == sorted.subrange(max_tiles - 1, sorted.len() as int),
            tail_sum == total_size(sorted.subrange(max_tiles - 1, k as int)),
        decreases sorted.len() - k,
    {
        assert(sorted.subrange(max_tiles - 1, k + 1).drop_last() =~= sorted.subrange(max_tiles - 1, k as int));
        match tail_sum.checked_add(items[k].size) {
            Some(t) => {
                tail_sum = t;
            },
            None => {
                proof {
                    lemma_total_mono(tail, k + 1 - (max_tiles - 1));
                    assert(tail.subrange(0, k + 1 - (max_tiles - 1)) =~= sorted.subrange(max_tiles - 1, k + 1));
                }
                return false;
            },
        }
        k += 1;
    }
    assert(sorted.subrange(max_tiles - 1, k as int) =~= tail);
    true
}

proof fn lemma_total_split(s: Seq<TreemapItem>, k: int)
    requires
        0 <= k <= s.len(),
    ensures
        total_size(s) == total_size(s.subrange(0, k)) + total_size(s.subrange(k, s.len() as int)),
    decreases s.len(),
{
    if s.len() > k {
        lemma_total_split(s.drop_last(), k);
        assert(s.drop_last().subrange(0, k) =~= s.subrange(0, k));
        assert(s.subrange(k, s.len() as int).drop_last() =~= s.drop_last().subrange(k, s.drop_last().len() as int));
    } else {
        assert(s.subrange(0, k) =~= s);
        assert(s.subrange(k, s.len() as int) =~= Seq::<TreemapItem>::empty());
    }
}

proof fn lemma_total_mono(s: Seq<TreemapItem>, k: int)
    requires
        0 <= k <= s.len(),
    ensures
        total_size(s.subrange(0, k)) <= total_size(s),
{
    lemma_total_split(s, k);
}

/// The subdirectories and files of `node` that take up space, as items.
fn dir_items(node: &DirNode) -> (r: Vec<TreemapItem>)
    ensures
        r@ == node_items(*node),
{
    let ghost all = all_items(*node);
    let ghost pred = nonempty_item();
    let mut items: Vec<TreemapItem> = Vec::new();
    let nc = node.children.len();
    let nf = node.files.len();
    let mut i: usize = 0;
    proof { reveal(Seq::filter); }
    assert(all.subrange(0, 0) =~= Seq::<TreemapItem>::empty());
    while i < nc
        invariant
            nc == node.children@.len(),
            nf == node.files@.len(),
            all == all_items(*node),
            pred == nonempty_item(),
            i <= nc,
            items@ == all.subrange(0, i as int).filter(pred),
        decreases nc - i,
    {
        let it = TreemapItem { source: ItemSource::Dir(i), size: node.children[i].size };
        assert(all[i as int] == it);
        proof {
            all.subrange(0, i as int).lemma_filter_push(it, pred);
            assert(all.subrange(0, i + 1) =~= all.subrange(0, i as int).push(it));
        }
        if it.size > 0 {
            items.push(it);
        }
        i += 1;
    }
    let mut j: usize = 0;
    while j < nf
        invariant
            nc == node.children@.len(),
            nf == node.files@.len(),
            all == all_items(*node),
            all.len() == nc + nf,
            pred == nonempty_item(),
            j <= nf,
            items@ == all.subrange(0, nc + j).filter(pred),
        decreases nf - j,
    {
        let it = TreemapItem { source: ItemSource::File(j), size: node.files[j].size };
        assert(all[nc + j] == it);
        proof {
            all.subrange(0, nc + j).lemma_filter_push(it, pred);
            assert(all.subrange(0, nc + j + 1) =~= all.subrange(0, nc + j).push(it));
        }
        if it.size > 0 {
            items.push(it);
        }
        j += 1;
    }
    assert(all.subrange(0, all.len() as int) =~= all);
    items
}

proof fn lemma_total_concat(a: Seq<TreemapItem>, b: Seq<TreemapItem>)
    ensures
        total_size(a + b) == total_size(a) + total_size(b),
    decreases b.len(),
{
    if b.len() > 0 {
        lemma_total_concat(a, b.drop_last());
        assert((a + b).drop_last() =~= a + b.drop_last());
    } else {
        assert(a + b =~= a);
    }
}

/// Ordering items does not change their total size.
proof fn lemma_sort_total(s: Seq<TreemapItem>)
    ensures
        total_size(sort_ranked(s, true)) == total_size(s),
        sort_ranked(s, true).len() == s.len(),
    decreases s.len(),
{
    if s.len() > 0 {
        let prev = sort_ranked(s.drop_last(), true);
        lemma_sort_total(s.drop_last());
        let x = s.last();
        let p = insert_pos(prev, x, true);
        crate::ordering::lemma_sort_ranked_is_ranked(s.drop_last(), true);
        lemma_insert_pos_bounds(prev, x);
        let r = prev.insert(p, x);
        assert(r =~= prev.subrange(0, p) + (seq![x] + prev.subrange(p, prev.len() as int)));
        lemma_total_concat(prev.subrange(0, p), seq![x] + prev.subrange(p, prev.len() as int));
        lemma_total_concat(seq![x], prev.subrange(p, prev.len() as int));
        lemma_total_split(prev, p);
        assert(seq![x].drop_last() =~= Seq::<TreemapItem>::empty());
        assert(total_size(seq![x]) == x.size) by {
            reveal_with_fuel(total_size, 2);
        }
    }
}

proof fn lemma_insert_pos_bounds(s: Seq<TreemapItem>, x: TreemapItem)
    ensures
        0 <= insert_pos(s, x, true) <= s.len(),
    decreases s.len(),
{
    if s.len() > 0 && !goes_before(s.last().rank(), x.rank(), true) {
        lemma_insert_pos_bounds(s.drop_last(), x);
    }
}

/// Every item of the node's own list takes up space.
proof fn lemma_node_items_positive(node: DirNode)
    ensures
        forall|i: int| 0 <= i < node_items(node).len() ==> #[trigger] node_items(node)[i].size > 0,
{
    assert forall|i: int| 0 <= i < node_items(node).len() implies #[trigger] node_items(node)[i].size > 0 by {
        all_items(node).lemma_filter_pred(nonempty_item(), i);
    }
}

proof fn lemma_sorted_members(s: Seq<TreemapItem>)
    requires
        forall|i: int| 0 <= i < s.len() ==> #[trigger] s[i].size > 0,
    ensures
        forall|i: int| 0 <= i < sort_ranked(s, true).len() ==> #[trigger] sort_ranked(s, true)[i].size > 0,
{
    broadcast use vstd::seq_lib::group_to_multiset_ensures;

    crate::ordering::lemma_sort_ranked_permutes(s, true);
    let r = sort_ranked(s, true);
    assert forall|i: int| 0 <= i < r.len() implies #[trigger] r[i].size > 0 by {
        assert(r.to_multiset().count(r[i]) > 0);
        assert(s.to_multiset().count(r[i]) > 0);
        assert(s.contains(r[i]));
    }
}

/// A treemap shows at most `max_tiles` items (when it is not 0), and exactly
/// `max_tiles` when the node has more items than that; otherwise one item for
/// each subdirectory or file that takes up space.
pub proof fn lemma_layout_count(node: DirNode, width: u32, height: u32, max_tiles: usize)
    requires
        width > 0,
        height > 0,
    ensures
        ({
            let n = node_items(node).len();
            let r = layout_items_of(node, width, height, max_tiles);
            &&& max_tiles > 0 && n > max_tiles ==> r.len() == max_tiles
            &&& !(max_tiles > 0 && n > max_tiles) ==> r.len() == n
        }),
{
    let items = sort_ranked(node_items(node), true);
    lemma_sort_total(node_items(node));
    if max_tiles > 0 && items.len() > max_tiles {
        let keep = items.subrange(0, max_tiles - 1);
        let tail = items.subrange(max_tiles - 1, items.len() as int);
        let agg = keep.push(TreemapItem { source: ItemSource::Other, size: total_size(tail) as u64 });
        lemma_sort_total(agg);
    }
}

/// Every item of a treemap stands for a subdirectory or file that the node
/// has, or is the aggregate of the long tail.
pub proof fn lemma_layout_items_in_node(node: DirNode, width: u32, height: u32, max_tiles: usize)
    ensures
        forall|i: int|
            0 <= i < layout_items_of(node, width, height, max_tiles).len() ==> item_in_node(
                node,
                #[trigger] layout_items_of(node, width, height, max_tiles)[i],
            ),
{
    broadcast use vstd::seq_lib::group_to_multiset_ensures;

    let all = all_items(node);
    let ni = node_items(node);
    let items = sort_ranked(ni, true);
    assert forall|x: TreemapItem| #[trigger] items.contains(x) implies item_in_node(node, x) by {
        crate::ordering::lemma_sort_ranked_permutes(ni, true);
        assert(items.to_multiset().count(x) > 0);
        assert(ni.contains(x));
        all.lemma_filter_contains_rev(nonempty_item(), x);
        let j = choose|j: int| 0 <= j < all.len() && all[j] == x;
        if j >= node.children@.len() {
            assert(all[j] == TreemapItem {
                source: ItemSource::File((j - node.children@.len()) as usize),
                size: node.files@[j - node.children@.len()].size,
            });
        }
    }
    let r = layout_items_of(node, width, height, max_tiles);
    assert forall|i: int| 0 <= i < r.len() implies item_in_node(node, #[trigger] r[i]) by {
        if width == 0 || height == 0 || items.len() == 0 {
        } else if max_tiles > 0 && items.len() > max_tiles {
            let keep = items.subrange(0, max_tiles - 1);
            let agg = keep.push(TreemapItem {
                source: ItemSource::Other,
                size: total_size(items.subrange(max_tiles - 1, items.len() as int)) as u64,
            });
            crate::ordering::lemma_sort_ranked_permutes(agg, true);
            assert(sort_ranked(agg, true).to_multiset().count(r[i]) > 0);
            assert(agg.contains(r[i]));
            let j = choose|j: int| 0 <= j < agg.len() && agg[j] == r[i];
            if j < max_tiles - 1 {
                assert(agg[j] == items[j]);
                assert(items.contains(items[j]));
            }
        } else {
            assert(items.contains(r[i]));
        }
    }
}

/// A treemap's items are ordered largest first, and each takes up space.
pub proof fn lemma_layout_ordered(node: DirNode, width: u32, height: u32, max_tiles: usize)
    requires
        tail_fits(node, max_tiles),
    ensures
        is_ranked(layout_items_of(node, width, height, max_tiles), true),
        forall|i: int|
            0 <= i < layout_items_of(node, width, height, max_tiles).len() ==> #[trigger] layout_items_of(
                node,
                width,
                height,
                max_tiles,
            )[i].size > 0,
{
    let items = sort_ranked(node_items(node), true);
    lemma_sort_ranked_is_ranked(node_items(node), true);
    lemma_node_items_positive(node);
    lemma_sorted_members(node_items(node));
    if width == 0 || height == 0 || items.len() == 0 {
    } else if max_tiles > 0 && items.len() > max_tiles {
        let keep = items.subrange(0, max_tiles - 1);
        let tail = items.subrange(max_tiles - 1, items.len() as int);
        let other = TreemapItem { source: ItemSource::Other, size: total_size(tail) as u64 };
        let agg = keep.push(other);
        lemma_sort_ranked_is_ranked(agg, true);
        assert(tail.len() > 0);
        lemma_total_split(tail, 1);
        assert(tail.subrange(0, 1).drop_last() =~= Seq::<TreemapItem>::empty());
        assert(tail[0] == items[max_tiles - 1]);
        assert(total_size(tail.subrange(0, 1)) == tail[0].size) by {
            reveal_with_fuel(total_size, 2);
        }
        assert(other.size > 0);
        assert forall|i: int| 0 <= i < agg.len() implies #[trigger] agg[i].size > 0 by {
            if i < agg.len() - 1 {
                assert(agg[i] == items[i]);
            }
        }
        lemma_sorted_members(agg);
    }
}

/// A treemap's items together account for every byte of the node's
/// space-taking subdirectories and files.
pub proof fn lemma_layout_total(node: DirNode, width: u32, height: u32, max_tiles: usize)
    requires
        width > 0,
        height > 0,
        tail_fits(node, max_tiles),
    ensures
        total_size(layout_items_of(node, width, height, max_tiles)) == total_size(node_items(node)),
{
    let items = sort_ranked(node_items(node), true);
    lemma_sort_total(node_items(node));
    if items.len() == 0 {
    } else if max_tiles > 0 && items.len() > max_tiles {
        let keep = items.subrange(0, max_tiles - 1);
        let tail = items.subrange(max_tiles - 1, items.len() as int);
        let other = TreemapItem { source: ItemSource::Other, size: total_size(tail) as u64 };
        let agg = keep.push(other);
        lemma_sort_total(agg);
        lemma_total_split(items, max_tiles - 1);
        assert(agg.drop_last() =~= keep);
    }
}

/// The label of a path: its file name, or the whole path when it has none.
pub open spec fn label_of_path(p: Seq<char>) -> Seq<char> {
    match file_name_of(p) {
        Some(n) => n,
        None => p,
    }
}

/// The label of a path: its file name, or the whole path when it has none.
pub fn file_name_label(path: &str) -> (r: String)
    ensures
        r@ == label_of_path(path@),
{
    match crate::paths::file_name(path) {
        Some(n) => n,
        None => path.to_owned(),
    }
}

/// The label of the aggregate item.
pub open spec fn other_label() -> Seq<char> {
    "(other)"@
}

/// The item refers to a subdirectory or file that `node` has.
pub open spec fn item_in_node(node: DirNode, item: TreemapItem) -> bool {
    match item.source {
        ItemSource::Dir(i) => i < node.children@.len(),
        ItemSource::File(i) => i < node.files@.len(),
        ItemSource::Other => true,
    }
}

/// The label shown on an item's tile.
pub open spec fn item_label_of(node: DirNode, item: TreemapItem) -> Seq<char> {
    match item.source {
        ItemSource::Dir(i) => label_of_path(node.children@[i as int].path@),
        ItemSource::File(i) => label_of_path(node.files@[i as int].path@),
        ItemSource::Other => other_label(),
    }
}

/// The label shown on an item's tile: the file name of what it stands for,
/// or `(other)` for the aggregate.
pub fn item_label(node: &DirNode, item: &TreemapItem) -> (r: String)
    requires
        item_in_node(*node, *item),
    ensures
        r@ == item_label_of(*node, *item),
{
    match item.source {
        ItemSource::Dir(i) => file_name_label(node.children[i].path.as_str()),
        ItemSource::File(i) => file_name_label(node.files[i].path.as_str()),
        ItemSource::Other => String::from_str("(other)"),
    }
}

/// The path an item stands for; `None` for the aggregate.
pub fn item_path(node: &DirNode, item: &TreemapItem) -> (r: Option<String>)
    requires
        item_in_node(*node, *item),
    ensures
        match item.source {
            ItemSource::Dir(i) => r matches Some(p) && p@ == node.children@[i as int].path@,
            ItemSource::File(i) => r matches Some(p) && p@ == node.files@[i as int].path@,
            ItemSource::Other => r is None,
        },
{
    match item.source {
        ItemSource::Dir(i) => Some(node.children[i].path.clone()),
        ItemSource::File(i) => Some(node.files[i].path.clone()),
        ItemSource::Other => None,
    }
}

impl TreemapItem {
    /// `true` when the item is a subdirectory (a drill-down target).
    pub fn is_dir(&self) -> (r: bool)
        ensures
            r == (self.source is Dir),
    {
        match self.source {
            ItemSource::Dir(_) => true,
            _ => false,
        }
    }
}

/// The text a tile's color is derived from: the part of the label after its
/// last `'.'` when coloring by extension and that part is not empty,
/// otherwise the whole label.
pub open spec fn color_key(label: Seq<char>, by_extension: bool) -> Seq<char> {
    let k = last_dot(label);
    if by_extension && k >= 0 && k + 1 < label.len() {
        label.subrange(k + 1, label.len() as int)
    } else {
        label
    }
}

/// 32-bit FNV-1a hash of a byte string.
pub open spec fn fnv1a(b: Seq<u8>) -> u32
    decreases b.len(),
{
    if b.len() == 0 {
        2166136261u32
    } else {
        (fnv1a(b.drop_last()) ^ (b.last() as u32)).wrapping_mul(16777619u32)
    }
}

/// The RGB color of a tile: three bytes of the FNV-1a hash of the UTF-8
/// encoding of its color key.
pub open spec fn tile_rgb(label: Seq<char>, by_extension: bool) -> (u8, u8, u8) {
    let h = fnv1a(vstd::utf8::encode_utf8(color_key(label, by_extension)));
    (((h >> 16u32) & 255u32) as u8, ((h >> 8u32) & 255u32) as u8, (h & 255u32) as u8)
}

/// The FNV-1a hash of the color key of `label`, from which tile colors are
/// derived.
pub fn color_hash(label: &str, color_by_extension: bool) -> (r: u32)
    ensures
        r == fnv1a(vstd::utf8::encode_utf8(color_key(label@, color_by_extension))),
{
    let n = label.unicode_len();
    let mut k: usize = n;
    proof { crate::paths::lemma_last_dot_facts(label@); }
    while k > 0 && label.get_char(k - 1) != '.'
        invariant
            n == label@.len(),
            k <= n,
            last_dot(label@) < k,
            -1 <= last_dot(label@),
            last_dot(label@) >= 0 ==> label@[last_dot(label@)] == '.',
        decreases k,
    {
        k = k - 1;
    }
    proof {
        if k > 0 {
            assert(last_dot(label@) == k - 1);
        }
    }
    let key: &str = if color_by_extension && k > 0 && k < n {
        label.substring_char(k, n)
    } else {
        label
    };
    assert(key@ == color_key(label@, color_by_extension));
    let bytes = key.as_bytes();
    let mut h: u32 = 2166136261;
    let mut i: usize = 0;
    while i < bytes.len()
        invariant
            i <= bytes@.len(),
            h == fnv1a(bytes@.subrange(0, i as int)),
        decreases bytes.len() - i,
    {
        assert(bytes@.subrange(0, i + 1).drop_last() =~= bytes@.subrange(0, i as int));
        h = (h ^ (bytes[i] as u32)).wrapping_mul(16777619);
        i += 1;
    }
    assert(bytes@.subrange(0, bytes@.len() as int) =~= bytes@);
    h
}

/// The fill color of a tile with `label`.
pub fn svg_color(label: &str, color_by_extension: bool) -> (r: (u8, u8, u8))
    ensures
        r == tile_rgb(label@, color_by_extension),
{
    let h = color_hash(label, color_by_extension);
    (((h >> 16u32) & 255u32) as u8, ((h >> 8u32) & 255u32) as u8, (h & 255u32) as u8)
}

/// The lower-cased extension of `out`, or empty text when it has none.
pub open spec fn target_extension(out: Seq<char>) -> Seq<char> {
    match extension_of(out) {
        Some(e) => crate::text::lower(e),
        None => Seq::empty(),
    }
}

/// The error for an output path that is not an SVG file; the extension is
/// written as a quoted, escaped string.
pub open spec fn unsupported_target_text(ext: Seq<char>) -> Seq<char> {
    "treemap render: unsupported extension \""@ + crate::error::escaped(ext) + "\" (only .svg)"@
}

/// Check that a treemap can be rendered to `out`: only SVG output (by
/// extension, any case) is supported.
pub fn check_render_target(out: &str) -> (r: Result<(), Error>)
    ensures
        target_extension(out@) == "svg"@ ==> r is Ok,
        target_extension(out@) != "svg"@ ==> (r matches Err(Error::Report(m)) && m@
            == unsupported_target_text(target_extension(out@))),
{
    let ext = match crate::paths::path_extension(out) {
        Some(e) => crate::text::to_ascii_lower(e.as_str()),
        None => String::new(),
    };
    if crate::text::str_eq(ext.as_str(), "svg") {
        Ok(())
    } else {
        let mut m = String::from_str("treemap render: unsupported extension \"");
        crate::error::append_escaped(&mut m, ext.as_str());
        m.append("\" (only .svg)");
        Err(Error::Report(m))
    }
}

/// The label as drawn in a tile that has room for `max_chars` characters.
pub open spec fn fitted_label(label: Seq<char>, max_chars: nat) -> Seq<char> {
    if max_chars > 0 && label.len() > max_chars {
        label.take(max_chars - 1).push('…')
    } else {
        label
    }
}

/// Shorten a tile label to `max_chars` characters, the last of them an
/// ellipsis, when it is longer; a label that fits, or a tile with no room
/// at all, keeps the label whole.
pub fn fit_label(label: &str, max_chars: usize) -> (r: String)
    ensures
        r@ == fitted_label(label@, max_chars as nat),
{
    let n = label.unicode_len();
    if max_chars > 0 && n > max_chars {
        let mut out = String::from_str(label.substring_char(0, max_chars - 1));
        out.push('…');
        assert(out@ =~= label@.take(max_chars - 1).push('…'));
        out
    } else {
        String::from_str(label)
    }
}

} // verus!
