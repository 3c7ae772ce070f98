//! Translations: the texts of the pages in each language, and the making of
//! a page's variant for one language.

use crate::parameters::pair_texts;
use crate::pattern::{
    all_captures, group_or_empty, group_text, group_texts, match_texts, search_all,
    PatternRejected,
};
use crate::text::{
    chars_of, find, first_occurrence, occurs, push_all, slice_of, splice, spliced, string_of,
    swap_texts,
};
use vstd::prelude::*;

verus! {

/// Names with their texts, as the contracts see them.
pub type Named = Seq<(Seq<char>, Seq<char>)>;

/// The texts of one page: its variables with what they say.
#[derive(Debug, Clone, PartialEq, Eq)]
pub struct PageTexts {
    pub page: String,
    pub variables: Vec<(String, String)>,
}

/// The texts of one language: its pages.
#[derive(Debug, Clone, PartialEq, Eq)]
pub struct LanguageTexts {
    pub code: String,
    pub pages: Vec<PageTexts>,
}

/// The texts of all languages.
#[derive(Debug, Clone, PartialEq, Eq)]
pub struct Translations {
    pub languages: Vec<LanguageTexts>,
}

/// What the contracts say of a `PageTexts`.
pub struct PageView {
    pub page: Seq<char>,
    pub variables: Named,
}

/// What the contracts say of a `LanguageTexts`.
pub struct LanguageView {
    pub code: Seq<char>,
    pub pages: Seq<PageView>,
}

impl View for PageTexts {
    type V = PageView;

    open spec fn view(&self) -> PageView {
        PageView { page: self.page@, variables: pair_texts(self.variables@) }
    }
}

/// The views of a sequence of pages.
pub open spec fn page_views(pages: Seq<PageTexts>) -> Seq<PageView> {
    Seq::new(pages.len(), |i: int| pages[i]@)
}

impl View for LanguageTexts {
    type V = LanguageView;

    open spec fn view(&self) -> LanguageView {
        LanguageView { code: self.code@, pages: page_views(self.pages@) }
    }
}

impl View for Translations {
    type V = Seq<LanguageView>;

    open spec fn view(&self) -> Seq<LanguageView> {
        Seq::new(self.languages@.len(), |i: int| self.languages@[i]@)
    }
}

/// The text of the last of `variables` with the name `name`: of two
/// entries with one name the later one counts, as in a map that was filled
/// in this order.
pub open spec fn variable_text(variables: Named, name: Seq<char>) -> Option<Seq<char>>
    decreases variables.len(),
{
    if variables.len() == 0 {
        None
    } else if variables.last().0 == name {
        Some(variables.last().1)
    } else {
        variable_text(variables.drop_last(), name)
    }
}

/// The last of `pages` with the name `name`.
pub open spec fn page_named(pages: Seq<PageView>, name: Seq<char>) -> Option<PageView>
    decreases pages.len(),
{
    if pages.len() == 0 {
        None
    } else if pages.last().page == name {
        Some(pages.last())
    } else {
        page_named(pages.drop_last(), name)
    }
}

/// The last of `languages` with the code `code`.
pub open spec fn language_coded(languages: Seq<LanguageView>, code: Seq<char>) -> Option<
    LanguageView,
>
    decreases languages.len(),
{
    if languages.len() == 0 {
        None
    } else if languages.last().code == code {
        Some(languages.last())
    } else {
        language_coded(languages.drop_last(), code)
    }
}

/// What the variable `variable` of the page `page` says in the language
/// `code`, where all three are known.
pub open spec fn translation_of(
    languages: Seq<LanguageView>,
    code: Seq<char>,
    page: Seq<char>,
    variable: Seq<char>,
) -> Option<Seq<char>> {
    match language_coded(languages, code) {
        None => None,
        Some(language) => match page_named(language.pages, page) {
            None => None,
            Some(p) => variable_text(p.variables, variable),
        },
    }
}

/// The regular expression that finds a translation placeholder.
pub open spec fn text_placeholder_pattern() -> Seq<char> {
    "<div>TEXT=([a-zA-Z0-9_\\.]+)</div>"@
}

/// What stands in place of the placeholder for `key` in the language
/// `code`. A key is a page and a variable with a dot between them, the first
/// dot of the key. A key with a translation gives the translation, a key
/// without one gives itself, both between the tags of the placeholder; a key
/// without a dot leaves the placeholder as it was.
pub open spec fn fragment(languages: Seq<LanguageView>, code: Seq<char>, key: Seq<char>) -> Seq<
    char,
> {
    if occurs(key, seq!['.']) {
        let dot: int = choose|i: int| first_occurrence(key, seq!['.'], i);
        match translation_of(languages, code, key.take(dot), key.skip(dot + 1)) {
            Some(text) => "<div>"@ + text + "</div>"@,
            None => "<div>"@ + key + "</div>"@,
        }
    } else {
        "<div>TEXT="@ + key + "</div>"@
    }
}

/// For each placeholder match of `found`, the placeholder with what stands
/// in its place.
pub open spec fn swaps_of(
    found: Seq<Seq<Option<Seq<char>>>>,
    languages: Seq<LanguageView>,
    code: Seq<char>,
) -> Seq<(Seq<char>, Seq<char>)> {
    Seq::new(
        found.len(),
        |i: int| (group_or_empty(found[i], 0), fragment(languages, code, group_or_empty(found[i], 1))),
    )
}

/// The text of the last of `variables` with the name `name`.
fn find_variable<'a>(variables: &'a Vec<(String, String)>, name: &String) -> (found: Option<
    &'a String,
>)
    ensures
        match variable_text(pair_texts(variables@), name@) {
            Some(text) => found is Some && found->Some_0@ == text,
            None => found is None,
        },
{
    let ghost all: Named = pair_texts(variables@);
    let mut i: usize = variables.len();
    assert(all.take(i as int) == all);
    while i > 0
        invariant
            i <= variables.len(),
            all == pair_texts(variables@),
            variable_text(all.take(i as int), name@) == variable_text(all, name@),
        decreases i,
    {
        i = i - 1;
        assert(all.take(i + 1).drop_last() == all.take(i as int));
        if variables[i].0 == *name {
            return Some(&variables[i].1);
        }
    }
    None
}

/// The last of `pages` with the name `name`.
fn find_page<'a>(pages: &'a Vec<PageTexts>, name: &String) -> (found: Option<&'a PageTexts>)
    ensures
        match page_named(page_views(pages@), name@) {
            Some(page) => found is Some && found->Some_0@ == page,
            None => found is None,
        },
{
    let ghost all: Seq<PageView> = page_views(pages@);
    let mut i: usize = pages.len();
    assert(all.take(i as int) == all);
    while i > 0
        invariant
            i <= pages.len(),
            all == page_views(pages@),
            page_named(all.take(i as int), name@) == page_named(all, name@),
        decreases i,
    {
        i = i - 1;
        assert(all.take(i + 1).drop_last() == all.take(i as int));
        if pages[i].page == *name {
            return Some(&pages[i]);
        }
    }
    None
}

/// The last of the languages with the code `code`.
fn find_language<'a>(translations: &'a Translations, code: &String) -> (found: Option<
    &'a LanguageTexts,
>)
    ensures
        match language_coded(translations@, code@) {
            Some(language) => found is Some && found->Some_0@ == language,
            None => found is None,
        },
{
    let ghost all: Seq<LanguageView> = translations@;
    let mut i: usize = translations.languages.len();
    assert(all.take(i as int) == all);
    while i > 0
        invariant
            i <= translations.languages.len(),
            all == translations@,
            language_coded(all.take(i as int), code@) == language_coded(all, code@),
        decreases i,
    {
        i = i - 1;
        assert(all.take(i + 1).drop_last() == all.take(i as int));
        if translations.languages[i].code == *code {
            return Some(&translations.languages[i]);
        }
    }
    None
}

/// What the variable `variable_name` of the page `page_name` says in the
/// language `language_code`; `None` where the language, the page or the
/// variable is not known.
pub fn get_translation_for_language_page_variable<'a>(
    translation_cache: &'a Translations,
    language_code: &str,
    page_name: &str,
    variable_name: &str,
) -> (text: Option<&'a String>)
    ensures
        match translation_of(translation_cache@, language_code@, page_name@, variable_name@) {
            Some(t) => text is Some && text->Some_0@ == t,
            None => text is None,
        },
{
    let code: String = language_code.to_owned();
    let page: String = page_name.to_owned();
    let variable: String = variable_name.to_owned();
    match find_language(translation_cache, &code) {
        None => None,
        Some(language) => match find_page(&language.pages, &page) {
            None => None,
            Some(p) => find_variable(&p.variables, &variable),
        },
    }
}

/// What stands in place of the placeholder for `key` in the language
/// `language_code`.
pub fn translated_fragment(translations: &Translations, language_code: &str, key: &Vec<char>) -> (
    out: Vec<char>)
    ensures
        out@ == fragment(translations@, language_code@, key@),
{
    let mut dot: Vec<char> = Vec::new();
    dot.push('.');
    let mut out: Vec<char> = Vec::new();
    match find(key, &dot) {
        None => {
            push_all(&mut out, &chars_of("<div>TEXT="));
            push_all(&mut out, key);
            push_all(&mut out, &chars_of("</div>"));
        },
        Some(at) => {
            assert(key@.skip(at + 1) == key@.subrange(at + 1, key.len() as int));
            let page: String = string_of(&slice_of(key, 0, at));
            let variable: String = string_of(&slice_of(key, at + 1, key.len()));
            push_all(&mut out, &chars_of("<div>"));
            match get_translation_for_language_page_variable(
                translations,
                language_code,
                page.as_str(),
                variable.as_str(),
            ) {
                Some(text) => {
                    push_all(&mut out, &chars_of(text.as_str()));
                },
                None => {
                    push_all(&mut out, key);
                },
            }
            push_all(&mut out, &chars_of("</div>"));
        },
    }
    out
}

/// For each placeholder match of `found`, the placeholder with what stands
/// in its place.
pub fn swaps_in_matches(
    found: &Vec<Vec<Option<String>>>,
    translations: &Translations,
    language_code: &str,
) -> (swaps: Vec<(Vec<char>, Vec<char>)>)
    ensures
        swap_texts(swaps@) == swaps_of(match_texts(found@), translations@, language_code@),
{
    let mut swaps: Vec<(Vec<char>, Vec<char>)> = Vec::new();
    let ghost all: Seq<Seq<Option<Seq<char>>>> = match_texts(found@);
    let ghost owed: Seq<(Seq<char>, Seq<char>)> = swaps_of(all, translations@, language_code@);
    let mut i: usize = 0;
    while i < found.len()
        invariant
            i <= found.len(),
            all == match_texts(found@),
            owed == swaps_of(all, translations@, language_code@),
            swaps@.len() == i,
            forall|k: int| 0 <= k < i ==> swap_texts(swaps@)[k] == #[trigger] owed[k],
        decreases found.len() - i,
    {
        let whole: Vec<char> = group_text(&found[i], 0);
        let key: Vec<char> = group_text(&found[i], 1);
        let with: Vec<char> = translated_fragment(translations, language_code, &key);
        let ghost before: Seq<(Vec<char>, Vec<char>)> = swaps@;
        swaps.push((whole, with));
        proof {
            assert(all[i as int] == group_texts(found@[i as int]@));
            assert forall|k: int| 0 <= k < i + 1 implies swap_texts(swaps@)[k]
                == #[trigger] owed[k] by {
                if k < i {
                    assert(swaps@[k] == before[k]);
                    assert(swap_texts(before)[k] == owed[k]);
                }
            }
        }
        i = i + 1;
    }
    assert(swap_texts(swaps@) =~= owed);
    swaps
}

/// The page `html` in the language `target_language_code`: every
/// placeholder of the form `<div>TEXT=page.variable</div>` gives way to the
/// translation between the same tags, or to its own key where there is no
/// translation. Fails where the pattern of the placeholders is not accepted.
pub fn generate_language_file(
    html: &str,
    translations: &Translations,
    target_language_code: &str,
) -> (r: Result<String, PatternRejected>)
    ensures
        match all_captures(text_placeholder_pattern(), html@) {
            Some(found) => r is Ok && r->Ok_0@ == spliced(
                html@,
                0,
                swaps_of(found, translations@, target_language_code@),
            ),
            None => r is Err,
        },
{
    match search_all("<div>TEXT=([a-zA-Z0-9_\\.]+)</div>", html) {
        Err(_) => Err(PatternRejected),
        Ok(found) => {
            let swaps: Vec<(Vec<char>, Vec<char>)> = swaps_in_matches(
                &found,
                translations,
                target_language_code,
            );
            let text: Vec<char> = chars_of(html);
            Ok(string_of(&splice(&text, &swaps)))
        },
    }
}

/// The name of the file that holds the page `base_name` in the language
/// `language_code`.
pub fn localized_file_name(language_code: &str, base_name: &str) -> (name: String)
    ensures
        name@ == language_code@ + seq!['-'] + base_name@ + ".html"@,
{
    let mut out: Vec<char> = chars_of(language_code);
    out.push('-');
    push_all(&mut out, &chars_of(base_name));
    push_all(&mut out, &chars_of(".html"));
    string_of(&out)
}

/// The value of a variable in a translation file, as far as it is read.
#[derive(Debug, Clone, PartialEq, Eq)]
pub enum JsonLeaf {
    /// A string.
    Text(String),
    /// Any other value.
    Other,
}

/// The value of a page in a translation file, as far as it is read.
#[derive(Debug, Clone, PartialEq, Eq)]
pub enum JsonEntry {
    /// An object: the names of its members with their values, in the order
    /// in which the object gives them.
    Object(Vec<(String, JsonLeaf)>),
    /// Any other value.
    Other,
}

/// A translation file, as far as it is read.
#[derive(Debug, Clone, PartialEq, Eq)]
pub enum JsonDocument {
    /// An object: the names of its members with their values.
    Object(Vec<(String, JsonEntry)>),
    /// Any other value.
    Other,
}

/// The variables among the first `n` of `members`: those whose value is a
/// string, with that string.
pub open spec fn variables_among(members: Seq<(String, JsonLeaf)>, n: int) -> Named
    decreases n,
{
    if n <= 0 {
        Seq::<(Seq<char>, Seq<char>)>::empty()
    } else {
        match members[n - 1].1 {
            JsonLeaf::Text(text) => variables_among(members, n - 1).push((members[n - 1].0@, text@)),
            JsonLeaf::Other => variables_among(members, n - 1),
        }
    }
}

/// The pages among the first `n` of `members`: those whose value is an
/// object, with the variables of that object.
pub open spec fn pages_among(members: Seq<(String, JsonEntry)>, n: int) -> Seq<PageView>
    decreases n,
{
    if n <= 0 {
        Seq::<PageView>::empty()
    } else {
        match members[n - 1].1 {
            JsonEntry::Object(inner) => pages_among(members, n - 1).push(
                PageView {
                    page: members[n - 1].0@,
                    variables: variables_among(inner@, inner@.len() as int),
                },
            ),
            JsonEntry::Other => pages_among(members, n - 1),
        }
    }
}

/// The texts that the translation file `document` gives for the language
/// `code`. A file that is no object gives no page; a member that is no
/// object is no page; a member of a page that is no string is no variable.
pub open spec fn language_from(code: Seq<char>, document: JsonDocument) -> LanguageView {
    LanguageView {
        code,
        pages: match document {
            JsonDocument::Object(members) => pages_among(members@, members@.len() as int),
            JsonDocument::Other => Seq::<PageView>::empty(),
        },
    }
}

/// The variables among `members`.
fn variables_in(members: &Vec<(String, JsonLeaf)>) -> (variables: Vec<(String, String)>)
    ensures
        pair_texts(variables@) == variables_among(members@, members@.len() as int),
{
    let mut variables: Vec<(String, String)> = Vec::new();
    let mut i: usize = 0;
    while i < members.len()
        invariant
            i <= members.len(),
            pair_texts(variables@) == variables_among(members@, i as int),
        decreases members.len() - i,
    {
        match &members[i].1 {
            JsonLeaf::Text(text) => {
                variables.push((members[i].0.clone(), text.clone()));
            },
            JsonLeaf::Other => {},
        }
        i = i + 1;
    }
    variables
}

/// The texts that the translation file `document` gives for the language
/// `language_code`.
pub fn load_translation_file(language_code: &str, document: &JsonDocument) -> (language:
    LanguageTexts)
    ensures
        language@ == language_from(language_code@, *document),
{
    let mut pages: Vec<PageTexts> = Vec::new();
    assert(page_views(pages@) == Seq::<PageView>::empty());
    match document {
        JsonDocument::Object(members) => {
            let mut i: usize = 0;
            while i < members.len()
                invariant
                    i <= members.len(),
                    page_views(pages@) == pages_among(members@, i as int),
                decreases members.len() - i,
            {
                match &members[i].1 {
                    JsonEntry::Object(inner) => {
                        let page = PageTexts {
                            page: members[i].0.clone(),
                            variables: variables_in(inner),
                        };
                        pages.push(page);
                    },
                    JsonEntry::Other => {},
                }
                i = i + 1;
            }
        },
        JsonDocument::Other => {},
    }
    LanguageTexts { code: language_code.to_owned(), pages }
}

/// The texts of all languages, from the translation files with the codes of
/// their languages. Of two files for one language the later one counts.
pub fn load_translation_files_from_paths(files: &Vec<(String, JsonDocument)>) -> (translations:
    Translations)
    ensures
        translations@ == Seq::new(
            files@.len(),
            |i: int| language_from(files@[i].0@, files@[i].1),
        ),
{
    let mut languages: Vec<LanguageTexts> = Vec::new();
    let mut i: usize = 0;
    while i < files.len()
        invariant
            i <= files.len(),
            languages@.len() == i,
            forall|k: int|
                0 <= k < i ==> (#[trigger] languages@[k])@ == language_from(
                    files@[k].0@,
                    files@[k].1,
                ),
        decreases files.len() - i,
    {
        let language: LanguageTexts = load_translation_file(files[i].0.as_str(), &files[i].1);
        languages.push(language);
        i = i + 1;
    }
    let translations = Translations { languages };
    translations
}

} // verus!
