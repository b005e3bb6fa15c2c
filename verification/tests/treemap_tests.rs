use filecanopy::analysis::tree::{DirNode, FileNode, SizeTree};
use filecanopy::visualization::treemap::{fit_label, 
    check_render_target, color_hash, file_name_label, item_label, item_path, layout, layout_fits,
    layout_node, svg_color,
    ItemSource, TreemapOptions,
};

fn make_tree(files: &[(&str, u64)]) -> SizeTree {
    let mut root = DirNode { path: "/".to_string(), ..DirNode::default() };
    for (name, size) in files {
        root.files.push(FileNode { path: name.to_string(), size: *size });
    }
    let total: u64 = files.iter().map(|(_, s)| *s).sum();
    root.size = total;
    root.file_count = files.len() as u64;
    SizeTree { root, total_bytes: total }
}

fn opts(width: u32, height: u32, max_tiles: usize) -> TreemapOptions {
    TreemapOptions { width, height, max_tiles, color_by_extension: false }
}

#[test]
fn empty_tree_yields_no_tiles() {
    let tree = SizeTree::default();
    assert!(layout(&tree, &TreemapOptions::default()).is_empty());
}

#[test]
fn single_item_for_single_file() {
    let tree = make_tree(&[("only.bin", 1000)]);
    let items = layout(&tree, &opts(200, 100, 100));
    assert_eq!(items.len(), 1);
    assert_eq!(items[0].size, 1000);
    assert_eq!(item_label(&tree.root, &items[0]), "only.bin");
}

#[test]
fn items_are_largest_first_and_keep_total() {
    let tree = make_tree(&[("a", 10), ("b", 80), ("c", 0), ("d", 40), ("e", 80)]);
    let items = layout(&tree, &opts(400, 250, 100));
    let sizes: Vec<u64> = items.iter().map(|i| i.size).collect();
    assert_eq!(sizes, vec![80, 80, 40, 10]);
    // equal sizes keep scan order: b before e
    assert_eq!(items[0].source, ItemSource::File(1));
    assert_eq!(items[1].source, ItemSource::File(4));
    assert_eq!(sizes.iter().sum::<u64>(), 210);
}

#[test]
fn max_tiles_aggregates_tail() {
    let names: Vec<String> = (0..20).map(|i| format!("f{}.dat", i)).collect();
    let files: Vec<(&str, u64)> =
        names.iter().enumerate().map(|(i, n)| (n.as_str(), (20 - i) as u64 * 10)).collect();
    let tree = make_tree(&files);
    let items = layout(&tree, &opts(300, 200, 5));
    assert_eq!(items.len(), 5);
    let other = items.iter().find(|t| t.source == ItemSource::Other).unwrap();
    assert_eq!(item_label(&tree.root, other), "(other)");
    assert_eq!(item_path(&tree.root, other), None);
    // the tail is f4..f19: sizes 160 down to 10
    assert_eq!(other.size, (1..=16).map(|k| k * 10).sum::<u64>());
    assert_eq!(items.iter().map(|i| i.size).sum::<u64>(), (1..=20).map(|k| k * 10).sum::<u64>());
}

#[test]
fn zero_canvas_yields_no_items() {
    let tree = make_tree(&[("a", 1)]);
    assert!(layout(&tree, &opts(0, 100, 10)).is_empty());
    assert!(layout_node(&tree.root, &opts(100, 0, 10)).is_empty());
}

#[test]
fn directories_come_first_among_equals_and_carry_paths() {
    let mut tree = make_tree(&[("/data/x.bin", 5)]);
    tree.root.children.push(DirNode { path: "/data/sub".to_string(), size: 5, ..DirNode::default() });
    let items = layout(&tree, &opts(10, 10, 0));
    assert_eq!(items.len(), 2);
    assert!(items[0].is_dir());
    assert_eq!(item_path(&tree.root, &items[0]), Some("/data/sub".to_string()));
    assert_eq!(item_label(&tree.root, &items[0]), "sub");
    assert_eq!(item_label(&tree.root, &items[1]), "x.bin");
}

#[test]
fn labels_fall_back_to_the_path() {
    assert_eq!(file_name_label("/a/b/c.txt"), "c.txt");
    assert_eq!(file_name_label("/"), "/");
    assert_eq!(file_name_label("a/.."), "a/..");
}

#[test]
fn svg_color_is_fnv1a_of_the_key() {
    fn fnv(s: &str) -> (u8, u8, u8) {
        let h = s.bytes().fold(2166136261u32, |a, b| (a ^ b as u32).wrapping_mul(16777619));
        (((h >> 16) & 0xff) as u8, ((h >> 8) & 0xff) as u8, (h & 0xff) as u8)
    }
    assert_eq!(svg_color("main.rs", true), fnv("rs"));
    assert_eq!(svg_color("main.rs", false), fnv("main.rs"));
    assert_eq!(svg_color("Makefile", true), fnv("Makefile"));
    assert_eq!(svg_color("trailing.", true), fnv("trailing."));
    assert_eq!(svg_color("", true), fnv(""));
}

#[test]
fn render_rejects_non_svg_extension() {
    let err = check_render_target("/tmp/out/tm.png").unwrap_err();
    let msg = err.message();
    assert!(msg.contains("svg"), "unexpected error: {msg}");
    assert_eq!(msg, "report generation failed: treemap render: unsupported extension \"png\" (only .svg)");
    assert!(check_render_target("/tmp/out/tm.SVG").is_ok());
    assert!(check_render_target("/tmp/out/tm").is_err());
}

#[test]
fn default_options() {
    let o = TreemapOptions::default();
    assert_eq!((o.width, o.height, o.max_tiles, o.color_by_extension), (1600, 1000, 500, true));
}

#[test]
fn color_hash_is_fnv1a_of_the_key() {
    let fnv = |s: &str| s.bytes().fold(2166136261u32, |a, b| (a ^ b as u32).wrapping_mul(16777619));
    assert_eq!(color_hash("photo.JPG", true), fnv("JPG"));
    assert_eq!(color_hash("photo.JPG", false), fnv("photo.JPG"));
    assert_eq!(color_hash("src", false), fnv("src"));
    assert_eq!(color_hash("", false), 2166136261);
}

#[test]
fn layout_fits_unless_the_tail_overflows() {
    let small = make_tree(&[("a", 10), ("b", 20), ("c", 30)]);
    assert!(layout_fits(&small.root, 2));
    assert!(layout_fits(&small.root, 0));
    let mut huge = DirNode { path: "/".to_string(), ..DirNode::default() };
    for name in ["x", "y", "z"] {
        huge.files.push(FileNode { path: name.to_string(), size: u64::MAX / 2 + 1 });
    }
    // The tail past the first item holds two halves of u64::MAX + 1.
    assert!(!layout_fits(&huge, 2));
    assert!(!layout_fits(&huge, 1));
    // With room for every item nothing is folded.
    assert!(layout_fits(&huge, 3));
    assert!(layout_fits(&huge, 0));
}

#[test]
fn long_labels_are_cut_with_an_ellipsis() {
    assert_eq!(fit_label("report.txt", 5), "repo…");
    assert_eq!(fit_label("report.txt", 10), "report.txt");
    assert_eq!(fit_label("report.txt", 0), "report.txt");
    assert_eq!(fit_label("ab", 1), "…");
    assert_eq!(fit_label("ü-umlaut", 3), "ü-…");
}
