use website_compiler::{
    replace_html_component_placeholders, ComponentDefinition, ComponentRegistry, ExpandError,
    ParameterTable,
};

fn component(name: &str, body: Option<&str>, has_style: bool, has_script: bool) -> ComponentDefinition {
    ComponentDefinition {
        name: name.to_string(),
        body: body.map(|b| b.to_string()),
        has_style,
        has_script,
    }
}

fn registry(components: Vec<ComponentDefinition>) -> ComponentRegistry {
    ComponentRegistry { folder: "shared/reusables".to_string(), components }
}

fn expand(content: &str, registry: &ComponentRegistry) -> Result<website_compiler::ExpansionContext, ExpandError> {
    replace_html_component_placeholders(
        content, registry, "<r-", ">", "<root>", "@template:", "@none", "{", "}", 100,
    )
}

#[test]
fn test_replace_html_components_all_scenarios() {
    let main_html = r#"<html><head><title>Test</title></head><body><r-card title='Welcome!' icon=@template:icon image='star.svg'></body></html>"#;
    let reg = registry(vec![
        component("card", Some(r#"<div><h2>{title}</h2>{icon}</div>"#), true, false),
        component(
            "icon",
            Some(
                r#"
        <img src='{image}'>
        "#,
            ),
            false,
            true,
        ),
    ]);

    let done = expand(main_html, &reg).unwrap();
    let final_content = done.text;

    assert!(final_content
        .contains(r#"<link rel="stylesheet" href="<root>/shared/reusables/card/card.css">"#));
    assert!(
        final_content.contains(r#"<script defer src="<root>/shared/reusables/icon/icon.js">"#)
    );
    assert!(final_content.contains(r#"<h2>Welcome!</h2>"#));
    assert!(final_content.contains(r#"<img src='star.svg'>"#));
    assert!(!final_content.contains("<r-"));
}

#[test]
fn expansion_gives_the_exact_text() {
    let main_html = "<html><head><title>T</title></head><body><r-card title='Welcome!' icon=@template:icon image='star.svg'></body></html>";
    let reg = registry(vec![
        component("card", Some("<div><h2>{title}</h2>{icon}</div>"), true, false),
        component("icon", Some("<img src='{image}'>"), false, true),
    ]);
    let done = expand(main_html, &reg).unwrap();
    let css = "<link rel=\"stylesheet\" href=\"<root>/shared/reusables/card/card.css\">\n";
    let js = "<script defer src=\"<root>/shared/reusables/icon/icon.js\"></script>\n";
    assert_eq!(
        done.text,
        format!(
            "<html><head><title>T</title>{}{}</head><body><div><h2>Welcome!</h2><img src='star.svg'></div></body></html>",
            css, js
        )
    );
    assert_eq!(done.head_injections, vec![css.to_string(), js.to_string()]);
    assert!(done.diagnostics.is_empty());
    assert_eq!(done.parameters.get("title"), Some("Welcome!".to_string()));
    assert_eq!(done.parameters.get("icon"), Some("@template:icon".to_string()));
    assert_eq!(done.parameters.get("image"), Some("star.svg".to_string()));
    assert_eq!(done.parameters.len(), 3);
}

#[test]
fn text_without_tags_is_left_as_it_is() {
    let reg = registry(vec![component("card", Some("<b>{x}</b>"), true, true)]);
    let content = "<html><head></head><body>{x} plain <p>text</p>\n</body></html>";
    let done = expand(content, &reg).unwrap();
    assert_eq!(done.text, content);
    assert!(done.head_injections.is_empty());
    assert!(done.diagnostics.is_empty());
    assert_eq!(done.parameters.len(), 0);
}

#[test]
fn text_without_tags_needs_no_step() {
    let reg = registry(vec![]);
    let done = replace_html_component_placeholders(
        "nothing here", &reg, "<r-", ">", "<root>", "@template:", "@none", "{", "}", 0,
    )
    .unwrap();
    assert_eq!(done.text, "nothing here");
}

#[test]
fn missing_component_leaves_an_error_marker() {
    let reg = registry(vec![component("card", Some("<b>ok</b>"), false, false)]);
    let done = expand("<p><r-widget></p><r-card>", &reg).unwrap();
    assert_eq!(
        done.text,
        "<p><!-- ERROR: Component 'widget' directory not found. --></p><b>ok</b>"
    );
    assert_eq!(done.diagnostics.len(), 1);
    assert!(done.diagnostics[0].is_missing_directory());
    assert_eq!(done.diagnostics[0].component(), "widget");
}

#[test]
fn missing_body_leaves_its_own_marker() {
    let reg = registry(vec![component("card", None, true, true)]);
    let done = expand("<head></head><r-card a=b>", &reg).unwrap();
    assert_eq!(
        done.text,
        "<head></head><!-- ERROR: HTML file for Component 'card' not found. -->"
    );
    assert_eq!(done.diagnostics.len(), 1);
    assert!(!done.diagnostics[0].is_missing_directory());
    assert_eq!(done.diagnostics[0].component(), "card");
    assert!(done.head_injections.is_empty());
    assert_eq!(done.parameters.get("a"), Some("b".to_string()));
}

#[test]
fn bound_placeholder_is_replaced_and_unbound_one_stays() {
    let reg = registry(vec![component("box", Some("[{a}|{b}|{a}]"), false, false)]);
    let done = expand("<r-box a=\"1 2\">", &reg).unwrap();
    assert_eq!(done.text, "[1 2|{b}|1 2]");
}

#[test]
fn none_prefix_gives_nothing() {
    let reg = registry(vec![component("box", Some("[{a}]"), false, false)]);
    let done = expand("<r-box a=@none>", &reg).unwrap();
    assert_eq!(done.text, "[]");
}

#[test]
fn later_binding_overwrites_and_earlier_ones_stay() {
    let reg = registry(vec![component("box", Some("({a},{b})"), false, false)]);
    let done = expand("<r-box a=1 b=2> <r-box a=3>", &reg).unwrap();
    assert_eq!(done.text, "(1,2) (3,2)");
    assert_eq!(done.parameters.get("a"), Some("3".to_string()));
    assert_eq!(done.parameters.get("b"), Some("2".to_string()));
}

#[test]
fn same_tag_is_replaced_everywhere_in_one_step() {
    let reg = registry(vec![component("x", Some("y"), false, false)]);
    let done = replace_html_component_placeholders(
        "<r-x><r-x><r-x>", &reg, "<r-", ">", "<root>", "@template:", "@none", "{", "}", 1,
    )
    .unwrap();
    assert_eq!(done.text, "yyy");
}

#[test]
fn link_is_not_injected_twice() {
    let reg = registry(vec![component("x", Some("y"), true, false)]);
    let done = expand("<head></head><r-x a=1><r-x a=2>", &reg).unwrap();
    let css = "<link rel=\"stylesheet\" href=\"<root>/shared/reusables/x/x.css\">\n";
    assert_eq!(done.text, format!("<head>{}</head>yy", css));
    assert_eq!(done.head_injections, vec![css.to_string()]);
}

#[test]
fn no_head_no_injection() {
    let reg = registry(vec![component("x", Some("y"), true, true)]);
    let done = expand("<body><r-x></body>", &reg).unwrap();
    assert_eq!(done.text, "<body>y</body>");
    assert!(done.head_injections.is_empty());
}

#[test]
fn self_including_component_exceeds_the_depth() {
    let reg = registry(vec![component("loop", Some("<r-loop>"), false, false)]);
    let r = replace_html_component_placeholders(
        "<r-loop>", &reg, "<r-", ">", "<root>", "@template:", "@none", "{", "}", 25,
    );
    assert_eq!(r.err(), Some(ExpandError::ExpansionDepthExceeded));
}

#[test]
fn tokens_with_meta_characters_are_taken_literally() {
    let reg = registry(vec![component("x", Some("<{v}>"), false, false)]);
    let done = replace_html_component_placeholders(
        "a [[x v=1]] b (.*) c", &reg, "[[", "]]", "<root>", "@template:", "@none", "{", "}", 10,
    )
    .unwrap();
    assert_eq!(done.text, "a <1> b (.*) c");
}

#[test]
fn oversized_token_is_rejected_as_pattern() {
    let reg = registry(vec![]);
    let huge = "a".repeat(1_500_000);
    let r = replace_html_component_placeholders(
        "text", &reg, &huge, ">", "<root>", "@template:", "@none", "{", "}", 10,
    );
    assert_eq!(r.err(), Some(ExpandError::PatternRejected));
}

#[test]
fn parameter_table_binds_in_order() {
    let mut table = ParameterTable::new();
    table.bind("a", "1");
    table.bind("b", "2");
    table.bind("a", "3");
    assert_eq!(table.len(), 2);
    assert_eq!(table.get("a"), Some("3".to_string()));
    assert_eq!(table.get("b"), Some("2".to_string()));
    assert_eq!(table.get("c"), None);
    assert_eq!(table.entries[0], ("a".to_string(), "3".to_string()));
}

#[test]
fn more_steps_than_needed_change_nothing() {
    let reg = registry(vec![
        component("a", Some("<r-b x=1>"), false, false),
        component("b", Some("[{x}]"), false, false),
    ]);
    let run = |steps: usize| {
        replace_html_component_placeholders(
            "<r-a>", &reg, "<r-", ">", "<root>", "@template:", "@none", "{", "}", steps,
        )
    };
    assert_eq!(run(1).err(), Some(ExpandError::ExpansionDepthExceeded));
    assert_eq!(run(2).unwrap().text, "[1]");
    assert_eq!(run(2).unwrap(), run(500).unwrap());
}
