use website_compiler::{get_relative_path, replace_root_placeholder_with_relative_path_new};

#[test]
fn test_get_relative_path_deeply_nested() {
    let path = "level1/level2/level3/level4/file.txt";
    assert_eq!(get_relative_path(path), "../../../");
}

#[test]
fn test_get_relative_path_medium_nesting() {
    let path = "docs/guides/index.md";
    assert_eq!(get_relative_path(path), "../");
}

#[test]
fn test_get_relative_path_shallow_path() {
    let path = "src/main.rs";
    assert_eq!(get_relative_path(path), "");
}

#[test]
fn test_get_relative_path_root_file() {
    let path = "README.md";
    assert_eq!(get_relative_path(path), "");
}

#[test]
fn test_get_relative_path_with_trailing_slash() {
    let path = "a/b/c/d/";
    assert_eq!(get_relative_path(path), "../../");
}

#[test]
fn relative_path_skips_empty_and_dot_segments() {
    assert_eq!(get_relative_path("./a//b/./c/../d"), "../../");
    assert_eq!(get_relative_path("/a/b/c"), "../");
    assert_eq!(get_relative_path(""), "");
    assert_eq!(get_relative_path("..."), "");
    assert_eq!(get_relative_path("a/.../b"), "../");
}

#[test]
fn root_placeholder_is_replaced_by_relative_path() {
    let content = "body { background: url('<root>/images/bg.png'); }";
    let out = replace_root_placeholder_with_relative_path_new(
        content,
        "<root>",
        "<root>",
        "out/a/b/c/style.css",
    );
    assert_eq!(out, "body { background: url('../../../images/bg.png'); }");
}

#[test]
fn root_placeholder_untouched_without_search_text() {
    let content = "a { b: url('<root>/x.png'); }";
    let out =
        replace_root_placeholder_with_relative_path_new(content, "@use", "<root>", "o/a/b/c.css");
    assert_eq!(out, content);
}
