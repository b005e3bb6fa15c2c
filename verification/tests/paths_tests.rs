use filecanopy::paths::{file_name, name_extension, parent_path, path_extension, path_has_prefix, path_less, paths_equal, split_components};

#[test]
fn components_skip_empty_and_dot_segments() {
    let c = split_components("/a//b/./c/");
    assert_eq!(c, vec!["a", "b", "c"]);
    let c = split_components("");
    assert!(c.is_empty());
}

#[test]
fn equality_and_prefix_are_component_wise() {
    assert!(paths_equal("/a/b", "/a//b/"));
    assert!(!paths_equal("/a/b", "a/b"));
    assert!(path_has_prefix("/a/b/c", "/a/b"));
    assert!(!path_has_prefix("/a/bc", "/a/b"));
    assert!(path_has_prefix("/a", "/"));
}

#[test]
fn parent_is_the_prefix_before_the_last_component() {
    assert_eq!(parent_path("/a/b/c"), Some("/a/b".to_string()));
    assert_eq!(parent_path("/a"), Some("/".to_string()));
    assert_eq!(parent_path("a"), Some("".to_string()));
    assert_eq!(parent_path("/"), None);
}

#[test]
fn file_names_and_extensions() {
    assert_eq!(file_name("/x/y.tar.gz"), Some("y.tar.gz".to_string()));
    assert_eq!(file_name("/x/.."), None);
    assert_eq!(path_extension("/x/y.tar.gz"), Some("gz".to_string()));
    assert_eq!(name_extension(".bashrc"), None);
    assert_eq!(name_extension("file."), Some("".to_string()));
    assert_eq!(name_extension("noext"), None);
}

#[test]
fn leading_dot_is_a_component_as_in_std() {
    let samples = [
        "", ".", "./", "./a", ".//a", "a", "./a/b", "./a/./b", "a/./b", "/a", "/./a", "..", "./..", ".a", "/", "a/b/",
    ];
    for x in samples {
        for y in samples {
            let (px, py) = (std::path::Path::new(x), std::path::Path::new(y));
            assert_eq!(paths_equal(x, y), px == py, "{x} == {y}");
            assert_eq!(path_has_prefix(x, y), px.starts_with(py), "{x} starts with {y}");
            assert_eq!(path_less(x, y), px < py, "{x} < {y}");
        }
        let std_parent = std::path::Path::new(x).parent();
        match parent_path(x) {
            Some(p) => assert_eq!(Some(std::path::Path::new(&p)), std_parent, "parent of {x}"),
            None => assert_eq!(std_parent, None, "parent of {x}"),
        }
    }
    assert_eq!(parent_path("./a/b").as_deref(), Some("./a"));
    assert_eq!(parent_path("./a").as_deref(), Some("."));
    assert_eq!(parent_path(".").as_deref(), Some(""));
}
