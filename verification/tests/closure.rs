use website_compiler::{get_all_files_that_need_recompiling, HtmlSource, PathSet};

struct TestFile<'a> {
    path: &'a str,
    content: &'a str,
}

const SOURCE_DIR: &str = "/tmp/site/edit-me";

fn full(path: &str) -> String {
    format!("{}/{}", SOURCE_DIR, path)
}

fn setup_test_environment(files: &[TestFile]) -> Vec<HtmlSource> {
    let mut sources = Vec::new();
    for file in files {
        sources.push(HtmlSource { path: full(file.path), text: Some(file.content.to_string()) });
    }
    sources
}

fn sorted(set: &PathSet) -> String {
    let mut paths = set.paths();
    paths.sort();
    paths.join("\n")
}

#[test]
fn test_recompile_basic_dependency() {
    let files_to_create = vec![
        TestFile { path: "shared/reusables/top-bar/top-bar.html", content: "<!-- Top Bar HTML -->" },
        TestFile { path: "pages/index.html", content: "<html><body><r-top-bar></body></html>" },
        TestFile { path: "pages/about.html", content: "<html><body><h1>About Us</h1></body></html>" },
    ];
    let sources = setup_test_environment(&files_to_create);
    let initial_modified_files = full("shared/reusables/top-bar/top-bar.html");
    let components_dir = full("shared/reusables");

    let result = get_all_files_that_need_recompiling(
        &sources,
        "<r-",
        ">",
        &PathSet::from_paths(&vec![initial_modified_files.clone()]),
        &components_dir,
    )
    .unwrap();

    let mut expected_files = vec![initial_modified_files, full("pages/index.html")];
    expected_files.sort();
    let expected_string = expected_files.join("\n");
    assert_eq!(sorted(&result), expected_string);
}

#[test]
fn test_recompile_cascading_dependency() {
    let files_to_create = vec![
        TestFile { path: "shared/reusables/top-bar/top-bar.html", content: "<!-- Top Bar HTML -->" },
        TestFile {
            path: "shared/reusables/page-layout/page-layout.html",
            content: "<div><r-top-bar></div>",
        },
        TestFile { path: "pages/contact.html", content: "<html><r-page-layout></html>" },
        TestFile { path: "pages/index.html", content: "<html>...</html>" },
    ];
    let sources = setup_test_environment(&files_to_create);
    let initial_modified_files = full("shared/reusables/top-bar/top-bar.html");
    let components_dir = full("shared/reusables");

    let result = get_all_files_that_need_recompiling(
        &sources,
        "<r-",
        ">",
        &PathSet::from_paths(&vec![initial_modified_files.clone()]),
        &components_dir,
    )
    .unwrap();

    let mut expected_files = vec![
        full("shared/reusables/top-bar/top-bar.html"),
        full("shared/reusables/page-layout/page-layout.html"),
        full("pages/contact.html"),
    ];
    expected_files.sort();
    let expected_string = expected_files.join("\n");
    assert_eq!(sorted(&result), expected_string);
}

#[test]
fn test_recompile_tag_with_extra_whitespace_and_args() {
    let files_to_create = vec![
        TestFile { path: "shared/reusables/button/button.html", content: "<!-- button -->" },
        TestFile { path: "pages/index.html", content: r#"<body><r-  button arg1="value"  ></body>"# },
    ];
    let sources = setup_test_environment(&files_to_create);
    let initial_modified_files = full("shared/reusables/button/button.html");
    let components_dir = full("shared/reusables");

    let result = get_all_files_that_need_recompiling(
        &sources,
        "<r-",
        ">",
        &PathSet::from_paths(&vec![initial_modified_files.clone()]),
        &components_dir,
    )
    .unwrap();

    let mut expected_files = vec![initial_modified_files, full("pages/index.html")];
    expected_files.sort();
    let expected_string = expected_files.join("\n");
    assert_eq!(sorted(&result), expected_string);
}

#[test]
fn test_recompile_circular_dependency() {
    let files_to_create = vec![
        TestFile { path: "shared/reusables/component-a/component-a.html", content: "<r-component-b>" },
        TestFile { path: "shared/reusables/component-b/component-b.html", content: "<r-component-a>" },
        TestFile { path: "pages/index.html", content: "..." },
    ];
    let sources = setup_test_environment(&files_to_create);
    let initial_modified_files = full("shared/reusables/component-a/component-a.html");
    let components_dir = full("shared/reusables");

    let result = get_all_files_that_need_recompiling(
        &sources,
        "<r-",
        ">",
        &PathSet::from_paths(&vec![initial_modified_files.clone()]),
        &components_dir,
    )
    .unwrap();

    let mut expected_files =
        vec![initial_modified_files, full("shared/reusables/component-b/component-b.html")];
    expected_files.sort();
    let expected_string = expected_files.join("\n");
    assert_eq!(sorted(&result), expected_string);
}

#[test]
fn two_pages_using_one_component_are_both_rebuilt() {
    let sources = setup_test_environment(&[
        TestFile { path: "shared/reusables/top-bar/top-bar.html", content: "<nav></nav>" },
        TestFile { path: "index.html", content: "<r-top-bar>" },
        TestFile { path: "about.html", content: "<p><r-top-bar title=x></p>" },
        TestFile { path: "other.html", content: "<r-side-bar>" },
    ]);
    let changed = PathSet::from_paths(&vec![full("shared/reusables/top-bar/top-bar.html")]);
    let result =
        get_all_files_that_need_recompiling(&sources, "<r-", ">", &changed, &full("shared/reusables"))
            .unwrap();
    let mut expected = vec![
        full("shared/reusables/top-bar/top-bar.html"),
        full("index.html"),
        full("about.html"),
    ];
    expected.sort();
    assert_eq!(sorted(&result), expected.join("\n"));
    assert_eq!(result.len(), 3);
}

#[test]
fn no_changed_component_no_cascade() {
    let sources = setup_test_environment(&[
        TestFile { path: "shared/reusables/top-bar/top-bar.html", content: "<nav></nav>" },
        TestFile { path: "index.html", content: "<r-top-bar>" },
    ]);
    let changed = PathSet::from_paths(&vec![full("index.html"), full("assets/style.css")]);
    let result =
        get_all_files_that_need_recompiling(&sources, "<r-", ">", &changed, &full("shared/reusables"))
            .unwrap();
    assert_eq!(result.paths(), vec![full("index.html"), full("assets/style.css")]);
}

#[test]
fn closure_applied_to_its_own_output_gives_the_same_set() {
    let sources = setup_test_environment(&[
        TestFile { path: "shared/reusables/a/a.html", content: "x" },
        TestFile { path: "shared/reusables/b/b.html", content: "<r-a>" },
        TestFile { path: "shared/reusables/c/c.html", content: "<r-b>" },
        TestFile { path: "pages/p.html", content: "<r-c>" },
        TestFile { path: "pages/q.html", content: "<r-d>" },
    ]);
    let dir = full("shared/reusables");
    let changed = PathSet::from_paths(&vec![full("shared/reusables/a/a.html")]);
    let once = get_all_files_that_need_recompiling(&sources, "<r-", ">", &changed, &dir).unwrap();
    let twice = get_all_files_that_need_recompiling(&sources, "<r-", ">", &once, &dir).unwrap();
    assert_eq!(sorted(&once), sorted(&twice));
    assert_eq!(once.len(), 4);
    assert!(!once.contains(&full("pages/q.html")));
    for p in changed.paths() {
        assert!(once.contains(&p));
    }
}

#[test]
fn chain_in_reverse_file_order_needs_several_passes() {
    let sources = setup_test_environment(&[
        TestFile { path: "pages/p.html", content: "<r-c>" },
        TestFile { path: "shared/reusables/c/c.html", content: "<r-b>" },
        TestFile { path: "shared/reusables/b/b.html", content: "<r-a>" },
        TestFile { path: "shared/reusables/a/a.html", content: "x" },
    ]);
    let dir = full("shared/reusables");
    let changed = PathSet::from_paths(&vec![full("shared/reusables/a/a.html")]);
    let result = get_all_files_that_need_recompiling(&sources, "<r-", ">", &changed, &dir).unwrap();
    assert_eq!(result.len(), 4);
    assert!(result.contains(&full("pages/p.html")));
}

#[test]
fn unreadable_file_uses_nothing() {
    let mut sources = setup_test_environment(&[
        TestFile { path: "shared/reusables/a/a.html", content: "x" },
        TestFile { path: "pages/p.html", content: "<r-a>" },
    ]);
    sources.push(HtmlSource { path: full("pages/broken.html"), text: None });
    let dir = full("shared/reusables");
    let changed = PathSet::from_paths(&vec![full("shared/reusables/a/a.html")]);
    let result = get_all_files_that_need_recompiling(&sources, "<r-", ">", &changed, &dir).unwrap();
    assert_eq!(result.len(), 2);
    assert!(!result.contains(&full("pages/broken.html")));
}

#[test]
fn tag_does_not_reach_over_a_line_break() {
    let sources = setup_test_environment(&[
        TestFile { path: "shared/reusables/a/a.html", content: "x" },
        TestFile { path: "pages/p.html", content: "<r-\na>" },
    ]);
    let dir = full("shared/reusables");
    let changed = PathSet::from_paths(&vec![full("shared/reusables/a/a.html")]);
    let result = get_all_files_that_need_recompiling(&sources, "<r-", ">", &changed, &dir).unwrap();
    assert_eq!(result.len(), 1);
}

#[test]
fn path_set_takes_each_path_once() {
    let mut set = PathSet::new();
    assert!(set.is_empty());
    assert!(set.insert("a".to_string()));
    assert!(set.insert("b".to_string()));
    assert!(!set.insert("a".to_string()));
    assert_eq!(set.len(), 2);
    assert_eq!(set.paths(), vec!["a".to_string(), "b".to_string()]);
    assert!(set.contains("b"));
    assert!(!set.contains("c"));
    let from = PathSet::from_paths(&vec!["x".to_string(), "y".to_string(), "x".to_string()]);
    assert_eq!(from.paths(), vec!["x".to_string(), "y".to_string()]);
    assert_eq!(from.get(1), "y");
}

#[test]
fn oversized_token_is_rejected_when_files_are_scanned() {
    let sources = setup_test_environment(&[
        TestFile { path: "shared/reusables/a/a.html", content: "x" },
        TestFile { path: "pages/p.html", content: "<r-a>" },
    ]);
    let dir = full("shared/reusables");
    let huge = "a".repeat(1_500_000);
    let changed = PathSet::from_paths(&vec![full("shared/reusables/a/a.html")]);
    assert!(get_all_files_that_need_recompiling(&sources, &huge, ">", &changed, &dir).is_err());
    let plain = PathSet::from_paths(&vec![full("pages/p.html")]);
    let same = get_all_files_that_need_recompiling(&sources, &huge, ">", &plain, &dir).unwrap();
    assert_eq!(same.paths(), vec![full("pages/p.html")]);
}

#[test]
fn component_uses_are_the_first_words_of_the_tags() {
    let names = website_compiler::rebuild::component_uses(
        "<r-a x=1> <r-  b > <r-> <r- > <r-c\n> <r-d>",
        "<r-",
        ">",
    )
    .unwrap();
    assert_eq!(names, vec!["a".to_string(), "b".to_string(), "d".to_string()]);
}

#[test]
fn closure_over_scanned_files() {
    let files = vec![
        website_compiler::ScannedFile { path: "c/x/x.html".to_string(), uses: vec![] },
        website_compiler::ScannedFile {
            path: "c/y/y.html".to_string(),
            uses: vec!["z".to_string(), "x".to_string()],
        },
        website_compiler::ScannedFile { path: "p.html".to_string(), uses: vec!["y".to_string()] },
        website_compiler::ScannedFile { path: "q.html".to_string(), uses: vec!["w".to_string()] },
    ];
    let changed = PathSet::from_paths(&vec!["c/x/x.html".to_string(), "notes.txt".to_string()]);
    let closure = website_compiler::rebuild::close_over(&changed, &files, "c");
    assert_eq!(
        closure.paths(),
        vec![
            "c/x/x.html".to_string(),
            "notes.txt".to_string(),
            "c/y/y.html".to_string(),
            "p.html".to_string()
        ]
    );
}

#[test]
fn one_pass_adds_what_the_frontier_reaches() {
    let files = vec![
        website_compiler::ScannedFile { path: "p.html".to_string(), uses: vec!["y".to_string()] },
        website_compiler::ScannedFile { path: "c/y/y.html".to_string(), uses: vec!["x".to_string()] },
    ];
    let dir: Vec<char> = "c".chars().collect();
    let mut rebuilt = PathSet::from_paths(&vec!["c/x/x.html".to_string()]);
    let mut front = PathSet::from_paths(&vec!["c/x/x.html".to_string()]);
    assert!(website_compiler::rebuild::closure_pass(&files, &dir, &mut rebuilt, &mut front));
    assert_eq!(rebuilt.paths(), vec!["c/x/x.html".to_string(), "c/y/y.html".to_string()]);
    assert!(website_compiler::rebuild::closure_pass(&files, &dir, &mut rebuilt, &mut front));
    assert_eq!(rebuilt.len(), 3);
    assert!(!website_compiler::rebuild::closure_pass(&files, &dir, &mut rebuilt, &mut front));
    assert_eq!(rebuilt.len(), 3);
}

#[test]
fn only_paths_that_begin_with_the_directory_lie_under_it() {
    let dir: Vec<char> = "site/parts".chars().collect();
    assert!(website_compiler::rebuild::lies_under("site/parts/a/a.html", &dir));
    assert!(website_compiler::rebuild::lies_under("site/parts/", &dir));
    assert!(!website_compiler::rebuild::lies_under("site/parts", &dir));
    assert!(!website_compiler::rebuild::lies_under("site/parts2/a.html", &dir));
    assert!(!website_compiler::rebuild::lies_under("old/site/parts/a/a.html", &dir));
    let inside = PathSet::from_paths(&vec!["x.css".to_string(), "site/parts/a/a.html".to_string()]);
    assert!(website_compiler::rebuild::has_component(&inside, "site/parts"));
    let outside =
        PathSet::from_paths(&vec!["x.css".to_string(), "old/site/parts/a/a.html".to_string()]);
    assert!(!website_compiler::rebuild::has_component(&outside, "site/parts"));
}
