use website_compiler::{
    generate_language_file, get_translation_for_language_page_variable, load_translation_file,
    load_translation_files_from_paths, localized_file_name, JsonDocument, JsonEntry, JsonLeaf,
    LanguageTexts, PageTexts, Translations,
};

fn sample() -> Translations {
    Translations {
        languages: vec![
            LanguageTexts {
                code: "en".to_string(),
                pages: vec![PageTexts {
                    page: "index".to_string(),
                    variables: vec![
                        ("title".to_string(), "Welcome".to_string()),
                        ("sub.title".to_string(), "Hello".to_string()),
                    ],
                }],
            },
            LanguageTexts {
                code: "es".to_string(),
                pages: vec![PageTexts {
                    page: "index".to_string(),
                    variables: vec![("title".to_string(), "Bienvenido".to_string())],
                }],
            },
        ],
    }
}

#[test]
fn translation_is_looked_up_by_language_page_and_variable() {
    let t = sample();
    assert_eq!(
        get_translation_for_language_page_variable(&t, "es", "index", "title"),
        Some(&"Bienvenido".to_string())
    );
    assert_eq!(get_translation_for_language_page_variable(&t, "fr", "index", "title"), None);
    assert_eq!(get_translation_for_language_page_variable(&t, "en", "about", "title"), None);
    assert_eq!(get_translation_for_language_page_variable(&t, "en", "index", "none"), None);
}

#[test]
fn placeholders_give_way_to_translations() {
    let t = sample();
    let html = "<h1><div>TEXT=index.title</div></h1><p><div>TEXT=index.missing</div></p><div>TEXT=nodot</div><div>TEXT=index.sub.title</div><div>TEXT=index.title</div>";
    assert_eq!(
        generate_language_file(html, &t, "en").unwrap(),
        "<h1><div>Welcome</div></h1><p><div>index.missing</div></p><div>TEXT=nodot</div><div>Hello</div><div>Welcome</div>"
    );
    assert_eq!(
        generate_language_file(html, &t, "es").unwrap(),
        "<h1><div>Bienvenido</div></h1><p><div>index.missing</div></p><div>TEXT=nodot</div><div>index.sub.title</div><div>Bienvenido</div>"
    );
}

#[test]
fn page_without_placeholders_is_unchanged() {
    let t = sample();
    let html = "<div>TEXT=</div><div>text</div>";
    assert_eq!(generate_language_file(html, &t, "en").unwrap(), html);
}

#[test]
fn translation_that_looks_like_a_placeholder_is_not_translated_again() {
    let t = Translations {
        languages: vec![LanguageTexts {
            code: "en".to_string(),
            pages: vec![PageTexts {
                page: "p".to_string(),
                variables: vec![
                    ("a".to_string(), "<div>TEXT=p.b</div>".to_string()),
                    ("b".to_string(), "B".to_string()),
                ],
            }],
        }],
    };
    assert_eq!(
        generate_language_file("<div>TEXT=p.a</div><div>TEXT=p.b</div>", &t, "en").unwrap(),
        "<div><div>TEXT=p.b</div></div><div>B</div>"
    );
}

#[test]
fn localized_name_has_the_language_in_front() {
    assert_eq!(localized_file_name("es", "index"), "es-index.html");
}

#[test]
fn translation_file_keeps_objects_and_strings_only() {
    let document = JsonDocument::Object(vec![
        (
            "index".to_string(),
            JsonEntry::Object(vec![
                ("title".to_string(), JsonLeaf::Text("Hi".to_string())),
                ("count".to_string(), JsonLeaf::Other),
                ("sub".to_string(), JsonLeaf::Text("there".to_string())),
            ]),
        ),
        ("version".to_string(), JsonEntry::Other),
        ("about".to_string(), JsonEntry::Object(vec![])),
    ]);
    let language = load_translation_file("en", &document);
    assert_eq!(language.code, "en");
    assert_eq!(language.pages.len(), 2);
    assert_eq!(language.pages[0].page, "index");
    assert_eq!(
        language.pages[0].variables,
        vec![("title".to_string(), "Hi".to_string()), ("sub".to_string(), "there".to_string())]
    );
    assert_eq!(language.pages[1].page, "about");
    assert!(language.pages[1].variables.is_empty());
    let none = load_translation_file("xx", &JsonDocument::Other);
    assert!(none.pages.is_empty());
}

#[test]
fn later_translation_file_counts_for_a_language() {
    let page = |text: &str| {
        JsonDocument::Object(vec![(
            "p".to_string(),
            JsonEntry::Object(vec![("v".to_string(), JsonLeaf::Text(text.to_string()))]),
        )])
    };
    let all = load_translation_files_from_paths(&vec![
        ("en".to_string(), page("one")),
        ("es".to_string(), page("uno")),
        ("en".to_string(), page("two")),
    ]);
    assert_eq!(all.languages.len(), 3);
    assert_eq!(
        get_translation_for_language_page_variable(&all, "en", "p", "v"),
        Some(&"two".to_string())
    );
    assert_eq!(
        get_translation_for_language_page_variable(&all, "es", "p", "v"),
        Some(&"uno".to_string())
    );
}
