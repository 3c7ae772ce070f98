use website_compiler::{compile_all, stage_file, PathSet, SourceKind, StagingError};

fn set(paths: &[&str]) -> PathSet {
    PathSet::from_paths(&paths.iter().map(|p| p.to_string()).collect())
}

#[test]
fn page_script_is_staged_without_its_page_folder() {
    let staged = stage_file("edit-me/pages/index/index.ts", "edit-me", "out").unwrap().unwrap();
    assert_eq!(staged.source, "edit-me/pages/index/index.ts");
    assert_eq!(staged.uncompiled, "out/index.ts");
    assert_eq!(staged.destination, "out/index.js");
    assert_eq!(staged.kind, SourceKind::Ts);
}

#[test]
fn component_style_keeps_its_folder() {
    let staged = stage_file("edit-me/shared/reusables/top-bar/top-bar.scss", "edit-me", "out")
        .unwrap()
        .unwrap();
    assert_eq!(staged.uncompiled, "out/shared/reusables/top-bar/top-bar.scss");
    assert_eq!(staged.destination, "out/shared/reusables/top-bar/top-bar.css");
    assert_eq!(staged.kind, SourceKind::Scss);
}

#[test]
fn only_the_first_page_folder_is_taken_out() {
    let staged =
        stage_file("edit-me/pages/a/pages/b/c.html", "edit-me", "out").unwrap().unwrap();
    assert_eq!(staged.uncompiled, "out/pages/b/c.html");
    assert_eq!(staged.destination, "out/pages/b/c.html");
    assert_eq!(staged.kind, SourceKind::Html);
}

#[test]
fn other_files_keep_their_name() {
    let staged = stage_file("edit-me/assets/logo.png", "edit-me", "out").unwrap().unwrap();
    assert_eq!(staged.destination, "out/assets/logo.png");
    assert_eq!(staged.kind, SourceKind::Other);
    let hidden = stage_file("edit-me/assets/.ts", "edit-me", "out").unwrap().unwrap();
    assert_eq!(hidden.destination, "out/assets/.ts");
    assert_eq!(hidden.kind, SourceKind::Other);
    let bare = stage_file("edit-me/ts", "edit-me", "out").unwrap().unwrap();
    assert_eq!(bare.kind, SourceKind::Other);
}

#[test]
fn blank_path_is_passed_over() {
    assert!(stage_file("   ", "edit-me", "out").unwrap().is_none());
    assert!(stage_file("", "edit-me", "out").unwrap().is_none());
}

#[test]
fn file_outside_the_source_dir_is_an_error() {
    assert_eq!(
        stage_file("elsewhere/a.html", "edit-me", "out").err(),
        Some(StagingError::NotUnderSourceDir)
    );
    assert_eq!(
        stage_file("edit-me2/a.html", "edit-me", "out").err(),
        Some(StagingError::NotUnderSourceDir)
    );
}

#[test]
fn plan_lists_scripts_and_styles() {
    let files = set(&[
        "edit-me/pages/index/index.html",
        "edit-me/pages/index/index.ts",
        "",
        "edit-me/shared/reusables/card/card.scss",
        "edit-me/shared/code/util.ts",
    ]);
    let plan = compile_all(&files, "edit-me", "out").ok().unwrap();
    assert_eq!(plan.files.len(), 4);
    assert_eq!(plan.scripts, vec!["out/index.js".to_string(), "out/shared/code/util.js".to_string()]);
    assert_eq!(plan.styles, vec!["out/shared/reusables/card/card.css".to_string()]);
    assert_eq!(plan.files[0].uncompiled, "out/index.html");
    assert_eq!(plan.files[2].source, "edit-me/shared/reusables/card/card.scss");
}

#[test]
fn plan_fails_with_its_first_bad_file() {
    let files = set(&["edit-me/a.ts", "other/b.ts", "edit-me/c.ts"]);
    assert_eq!(
        compile_all(&files, "edit-me", "out").err(),
        Some(StagingError::NotUnderSourceDir)
    );
}

#[test]
fn compiled_names_swap_the_extension_only() {
    let script = website_compiler::place_in_output("s/a.ts.ts", "a.ts.ts", "out");
    assert_eq!(script.uncompiled, "out/a.ts.ts");
    assert_eq!(script.destination, "out/a.ts.js");
    let style = website_compiler::place_in_output("s/x/b.scss", "x/b.scss", "out");
    assert_eq!(style.destination, "out/x/b.css");
    assert_eq!(style.kind, SourceKind::Scss);
    let page = website_compiler::place_in_output("s/c.html", "c.html", "out");
    assert_eq!(page.destination, "out/c.html");
    assert_eq!(page.kind, SourceKind::Html);
}
