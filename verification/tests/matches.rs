use website_compiler::expand::{apply_tag, bindings_in_matches, inject_head_assets, unquote};
use website_compiler::rebuild::names_in_matches;
use website_compiler::scripts::tags_in_matches;
use website_compiler::translate::swaps_in_matches;
use website_compiler::{
    ComponentDefinition, ComponentRegistry, ExpansionContext, LanguageTexts, PageTexts, Syntax,
    Translations,
};

fn groups(texts: &[Option<&str>]) -> Vec<Option<String>> {
    texts.iter().map(|t| t.map(|s| s.to_string())).collect()
}

fn chars(s: &str) -> Vec<char> {
    s.chars().collect()
}

fn syntax() -> Syntax {
    Syntax {
        re_start: "<r-".to_string(),
        re_end: ">".to_string(),
        root_placeholder: "<root>".to_string(),
        template_prefix: "@template:".to_string(),
        none_prefix: "@none".to_string(),
        re_param_s: "{".to_string(),
        re_param_e: "}".to_string(),
    }
}

#[test]
fn names_are_first_words_of_the_first_group() {
    let found = vec![
        groups(&[Some("<r-a b>"), Some("a b")]),
        groups(&[Some("<r- >"), Some(" ")]),
        groups(&[Some("<r-x>"), None]),
        groups(&[Some("<r-y>")]),
        groups(&[Some("<r-\tz\u{a0}w>"), Some("\tz\u{a0}w")]),
    ];
    assert_eq!(names_in_matches(&found), vec!["a".to_string(), "z".to_string()]);
}

#[test]
fn bindings_take_the_quotes_off() {
    let found = vec![
        groups(&[Some("k='v w'"), Some("k"), Some("'v w'")]),
        groups(&[Some("q=\"x\""), Some("q"), Some("\"x\"")]),
        groups(&[Some("b=bare"), Some("b"), Some("bare")]),
        groups(&[Some("h='half"), Some("h"), Some("'half")]),
        groups(&[Some("m='x\""), Some("m"), Some("'x\"")]),
        groups(&[Some("e=''"), Some("e"), Some("''")]),
        groups(&[Some("n"), None, None]),
    ];
    let pairs = bindings_in_matches(&found);
    assert_eq!(
        pairs,
        vec![
            ("k".to_string(), "v w".to_string()),
            ("q".to_string(), "x".to_string()),
            ("b".to_string(), "bare".to_string()),
            ("h".to_string(), "'half".to_string()),
            ("m".to_string(), "'x\"".to_string()),
            ("e".to_string(), "".to_string()),
            ("".to_string(), "".to_string()),
        ]
    );
    assert_eq!(unquote(&chars("\"")), chars("\""));
    assert_eq!(unquote(&chars("''")), chars(""));
}

#[test]
fn tag_is_resolved_in_a_given_state() {
    let registry = ComponentRegistry {
        folder: "parts".to_string(),
        components: vec![ComponentDefinition {
            name: "card".to_string(),
            body: Some("<b>{t}</b>{u}{w}".to_string()),
            has_style: false,
            has_script: true,
        }],
    };
    let mut ctx = ExpansionContext::start("<head></head>[TAG] and [TAG]");
    ctx.parameters.bind("u", "@template:inner");
    ctx.parameters.bind("w", "@nonesense");
    let pairs = vec![("t".to_string(), "T".to_string())];
    apply_tag(&mut ctx, "[TAG]", "card", &pairs, &registry, &syntax());
    let js = "<script defer src=\"<root>/parts/card/card.js\"></script>\n";
    assert_eq!(
        ctx.text,
        format!("<head>{}</head><b>T</b><r-inner> and <b>T</b><r-inner>", js)
    );
    assert_eq!(ctx.head_injections, vec![js.to_string()]);
    assert_eq!(ctx.parameters.len(), 3);
    assert_eq!(ctx.parameters.entries[2], ("t".to_string(), "T".to_string()));
    assert!(ctx.diagnostics.is_empty());
}

#[test]
fn head_assets_go_before_the_first_head_close() {
    let component = ComponentDefinition {
        name: "n".to_string(),
        body: None,
        has_style: true,
        has_script: true,
    };
    let css = "<link rel=\"stylesheet\" href=\"R/f/n/n.css\">\n";
    let js = "<script defer src=\"R/f/n/n.js\"></script>\n";
    let mut injected = vec!["old".to_string()];
    let out = inject_head_assets(&chars("a</head>b</head>"), &component, "f", "R", &mut injected);
    assert_eq!(out, chars(&format!("a{}{}</head>b</head>", css, js)));
    assert_eq!(injected, vec!["old".to_string(), css.to_string(), js.to_string()]);
    let mut again = Vec::new();
    let text = format!("a{}</head>", js);
    let out = inject_head_assets(&chars(&text), &component, "f", "R", &mut again);
    assert_eq!(out, chars(&format!("a{}{}</head>", js, css)));
    assert_eq!(again, vec![css.to_string()]);
}

#[test]
fn script_tags_come_from_groups_zero_and_one() {
    let found = vec![groups(&[Some("<js-a>"), Some("a")]), groups(&[Some("<js->"), Some("")])];
    let tags = tags_in_matches(&found);
    assert_eq!(tags.len(), 2);
    assert_eq!(tags[0].full, "<js-a>");
    assert_eq!(tags[0].name, "a");
    assert_eq!(tags[1].full, "<js->");
    assert_eq!(tags[1].name, "");
}

#[test]
fn swaps_pair_each_placeholder_with_its_fragment() {
    let translations = Translations {
        languages: vec![LanguageTexts {
            code: "en".to_string(),
            pages: vec![PageTexts {
                page: "p".to_string(),
                variables: vec![("v".to_string(), "V".to_string())],
            }],
        }],
    };
    let found = vec![
        groups(&[Some("<div>TEXT=p.v</div>"), Some("p.v")]),
        groups(&[Some("<div>TEXT=p.x</div>"), Some("p.x")]),
        groups(&[Some("<div>TEXT=pv</div>"), Some("pv")]),
        groups(&[Some("<div>TEXT=.v</div>"), Some(".v")]),
    ];
    let swaps = swaps_in_matches(&found, &translations, "en");
    assert_eq!(
        swaps,
        vec![
            (chars("<div>TEXT=p.v</div>"), chars("<div>V</div>")),
            (chars("<div>TEXT=p.x</div>"), chars("<div>p.x</div>")),
            (chars("<div>TEXT=pv</div>"), chars("<div>TEXT=pv</div>")),
            (chars("<div>TEXT=.v</div>"), chars("<div>.v</div>")),
        ]
    );
}
