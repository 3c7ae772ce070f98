use website_compiler::{
    process_staged_text, ComponentDefinition, ComponentRegistry, ExpandError, Snippet, SourceKind,
    Syntax,
};

fn syntax() -> Syntax {
    Syntax {
        re_start: "<r-".to_string(),
        re_end: ">".to_string(),
        root_placeholder: "<root>".to_string(),
        template_prefix: "@template:".to_string(),
        none_prefix: "@none".to_string(),
        re_param_s: "{".to_string(),
        re_param_e: "}".to_string(),
    }
}

fn registry() -> ComponentRegistry {
    ComponentRegistry {
        folder: "shared/reusables".to_string(),
        components: vec![ComponentDefinition {
            name: "logo".to_string(),
            body: Some("<img src=\"<root>/shared/images/{file}\">".to_string()),
            has_style: true,
            has_script: false,
        }],
    }
}

#[test]
fn page_is_expanded_and_then_rooted() {
    let done = process_staged_text(
        SourceKind::Html,
        "<head></head><r-logo file=a.png><r-none>",
        "out/about/team/index.html",
        "@use",
        &registry(),
        &vec![],
        &syntax(),
        50,
    )
    .ok()
    .unwrap();
    assert_eq!(
        done.text,
        "<head><link rel=\"stylesheet\" href=\"../../shared/reusables/logo/logo.css\">\n</head><img src=\"../../shared/images/a.png\"><!-- ERROR: Component 'none' directory not found. -->"
    );
    assert_eq!(
        done.head_injections,
        vec!["<link rel=\"stylesheet\" href=\"<root>/shared/reusables/logo/logo.css\">\n".to_string()]
    );
    assert_eq!(done.diagnostics.len(), 1);
    assert!(done.missing_snippets.is_empty());
}

#[test]
fn stylesheet_is_rooted_in_both_passes() {
    let with_import = process_staged_text(
        SourceKind::Scss,
        "@use '<root>/shared/base';\na { b: url(<root>/x.png) }",
        "out/a/b/c.scss",
        "@use",
        &registry(),
        &vec![],
        &syntax(),
        50,
    )
    .ok()
    .unwrap();
    assert_eq!(with_import.text, "@use '../../shared/base';\na { b: url(../../x.png) }");
    let bare = process_staged_text(
        SourceKind::Scss,
        "a { b: url(<root>/x.png); c: '<root>' }",
        "out/c.scss",
        "@use",
        &registry(),
        &vec![],
        &syntax(),
        50,
    )
    .ok()
    .unwrap();
    assert_eq!(bare.text, "a { b: url(x.png); c: '<root>' }");
}

#[test]
fn script_gets_its_snippets() {
    let snippets = vec![
        Snippet { name: "base".to_string(), text: "'<root>/u'".to_string() },
        Snippet { name: "util".to_string(), text: "let u = <r-base>;".to_string() },
    ];
    let done = process_staged_text(
        SourceKind::Ts,
        "<r-util>\n<r-gone>\nrun();",
        "out/x/y/z/app.ts",
        "@use",
        &registry(),
        &snippets,
        &syntax(),
        50,
    )
    .ok()
    .unwrap();
    assert_eq!(done.text, "let u = '../../../u';\n<r-gone>\nrun();");
    assert_eq!(done.missing_snippets, vec!["gone".to_string()]);
}

#[test]
fn other_files_only_get_rooted() {
    let done = process_staged_text(
        SourceKind::Other,
        "see <root>/readme <r-logo>",
        "out/a/b/notes.txt",
        "@use",
        &registry(),
        &vec![],
        &syntax(),
        0,
    )
    .ok()
    .unwrap();
    assert_eq!(done.text, "see ../../readme <r-logo>");
}

#[test]
fn page_that_never_ends_is_an_error() {
    let endless = ComponentRegistry {
        folder: "c".to_string(),
        components: vec![ComponentDefinition {
            name: "again".to_string(),
            body: Some("<r-again>".to_string()),
            has_style: false,
            has_script: false,
        }],
    };
    let result = process_staged_text(
        SourceKind::Html,
        "<r-again>",
        "out/p.html",
        "@use",
        &endless,
        &vec![],
        &syntax(),
        10,
    );
    assert_eq!(result.err(), Some(ExpandError::ExpansionDepthExceeded));
}
