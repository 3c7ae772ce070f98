//! The passes over the text of a staged file: what its kind calls for
//! first, and the root placeholder last.

use crate::expand::{
    diagnostic_views, expanded, lemma_no_tag_no_change, replace_html_component_placeholders,
    start_context, tag_pattern, ComponentRegistry, Diagnostic, DiagnosticView, ExpandError,
    RegistryView,
};
use crate::parameters::{Syntax, SyntaxView};
use crate::path_set::texts;
use crate::paths::{replace_root_placeholder_with_relative_path_new, root_resolved};
use crate::pattern::first_captures;
use crate::scripts::{
    add_reusable_javascript_components, included, snippet_texts, Snippet, SnippetTexts,
};
use crate::staging::SourceKind;
use crate::text::occurs;
use vstd::prelude::*;

verus! {

/// What the passes made of a file.
#[derive(Debug, Clone, PartialEq, Eq)]
pub struct Processed {
    /// The text to write.
    pub text: String,
    /// The links that were put into the head of a page.
    pub head_injections: Vec<String>,
    /// What went wrong with the component tags of a page.
    pub diagnostics: Vec<Diagnostic>,
    /// The snippets that a script names and that were not found.
    pub missing_snippets: Vec<String>,
}

/// What the contracts say of a `Processed`.
pub struct ProcessedView {
    pub text: Seq<char>,
    pub head_injections: Seq<Seq<char>>,
    pub diagnostics: Seq<DiagnosticView>,
    pub missing_snippets: Seq<Seq<char>>,
}

impl View for Processed {
    type V = ProcessedView;

    open spec fn view(&self) -> ProcessedView {
        ProcessedView {
            text: self.text@,
            head_injections: texts(self.head_injections@),
            diagnostics: diagnostic_views(self.diagnostics@),
            missing_snippets: texts(self.missing_snippets@),
        }
    }
}

/// A text that no pass has reported anything about.
pub open spec fn plain(text: Seq<char>) -> ProcessedView {
    ProcessedView {
        text,
        head_injections: Seq::<Seq<char>>::empty(),
        diagnostics: Seq::<DiagnosticView>::empty(),
        missing_snippets: Seq::<Seq<char>>::empty(),
    }
}

/// What the pass for the kind of the file makes of `content`.
///
/// A stylesheet has its root placeholders resolved where it holds the
/// import word. A script has its snippets put in, and the snippets theirs. A
/// page has its component tags expanded. Any other file stays as it is.
pub open spec fn after_kind_pass(
    kind: SourceKind,
    content: Seq<char>,
    target: Seq<char>,
    import_word: Seq<char>,
    registry: RegistryView,
    snippets: SnippetTexts,
    syntax: SyntaxView,
    max_steps: nat,
) -> Result<ProcessedView, ExpandError> {
    match kind {
        SourceKind::Scss => Ok(
            plain(root_resolved(content, import_word, syntax.root_placeholder, target)),
        ),
        SourceKind::Ts => match included(
            content,
            snippets,
            syntax.re_start,
            syntax.re_end,
            max_steps,
        ) {
            Err(e) => Err(e),
            Ok(done) => Ok(
                ProcessedView {
                    text: done.text,
                    head_injections: Seq::<Seq<char>>::empty(),
                    diagnostics: Seq::<DiagnosticView>::empty(),
                    missing_snippets: done.missing,
                },
            ),
        },
        SourceKind::Html => match expanded(start_context(content), registry, syntax, max_steps) {
            Err(e) => Err(e),
            Ok(done) => Ok(
                ProcessedView {
                    text: done.text,
                    head_injections: done.head_injections,
                    diagnostics: done.diagnostics,
                    missing_snippets: Seq::<Seq<char>>::empty(),
                },
            ),
        },
        SourceKind::Other => Ok(plain(content)),
    }
}

/// What all passes make of `content`: the pass for the kind of the file,
/// then the root placeholders of the whole text resolved for the place of
/// the file.
pub open spec fn processed(
    kind: SourceKind,
    content: Seq<char>,
    target: Seq<char>,
    import_word: Seq<char>,
    registry: RegistryView,
    snippets: SnippetTexts,
    syntax: SyntaxView,
    max_steps: nat,
) -> Result<ProcessedView, ExpandError> {
    match after_kind_pass(
        kind,
        content,
        target,
        import_word,
        registry,
        snippets,
        syntax,
        max_steps,
    ) {
        Err(e) => Err(e),
        Ok(first) => Ok(
            ProcessedView {
                text: root_resolved(
                    first.text,
                    syntax.root_placeholder,
                    syntax.root_placeholder,
                    target,
                ),
                head_injections: first.head_injections,
                diagnostics: first.diagnostics,
                missing_snippets: first.missing_snippets,
            },
        ),
    }
}

/// What `process_staged_text` owes for the outcome that the contract names.
pub open spec fn processing_outcome(
    result: Result<Processed, ExpandError>,
    owed: Result<ProcessedView, ExpandError>,
) -> bool {
    match owed {
        Ok(view) => result is Ok && result->Ok_0@ == view,
        Err(e) => result is Err && result->Err_0 == e,
    }
}

/// Runs the passes over the text of the staged file at `target`.
///
/// First comes the pass for the kind of the file. A stylesheet that holds
/// `import_word` has every root placeholder resolved; a script has the
/// snippets of `snippets` put in for its tags and for the tags that the
/// snippets bring; a page has its component tags expanded from `registry`.
/// Either takes at most `max_steps` steps. Then the root placeholders that
/// are left in the text are resolved, for every kind.
pub fn process_staged_text(
    kind: SourceKind,
    content: &str,
    target: &str,
    import_word: &str,
    registry: &ComponentRegistry,
    snippets: &Vec<Snippet>,
    syntax: &Syntax,
    max_steps: usize,
) -> (result: Result<Processed, ExpandError>)
    ensures
        processing_outcome(
            result,
            processed(
                kind,
                content@,
                target@,
                import_word@,
                registry@,
                snippet_texts(snippets@),
                syntax@,
                max_steps as nat,
            ),
        ),
{
    let root: &str = syntax.root_placeholder.as_str();
    let mut done = Processed {
        text: String::new(),
        head_injections: Vec::new(),
        diagnostics: Vec::new(),
        missing_snippets: Vec::new(),
    };
    assert(done@.diagnostics == Seq::<DiagnosticView>::empty());
    assert(done@.missing_snippets == Seq::<Seq<char>>::empty());
    match kind {
        SourceKind::Scss => {
            done.text = replace_root_placeholder_with_relative_path_new(
                content,
                import_word,
                root,
                target,
            );
        },
        SourceKind::Ts => {
            match add_reusable_javascript_components(
                content,
                snippets,
                syntax.re_start.as_str(),
                syntax.re_end.as_str(),
                max_steps,
            ) {
                Err(e) => {
                    return Err(e);
                },
                Ok(inclusion) => {
                    done.text = inclusion.text;
                    done.missing_snippets = inclusion.missing;
                },
            }
        },
        SourceKind::Html => {
            match replace_html_component_placeholders(
                content,
                registry,
                syntax.re_start.as_str(),
                syntax.re_end.as_str(),
                root,
                syntax.template_prefix.as_str(),
                syntax.none_prefix.as_str(),
                syntax.re_param_s.as_str(),
                syntax.re_param_e.as_str(),
                max_steps,
            ) {
                Err(e) => {
                    return Err(e);
                },
                Ok(ctx) => {
                    done.text = ctx.text;
                    done.head_injections = ctx.head_injections;
                    done.diagnostics = ctx.diagnostics;
                },
            }
        },
        SourceKind::Other => {
            done.text = content.to_owned();
        },
    }
    done.text = replace_root_placeholder_with_relative_path_new(
        done.text.as_str(),
        root,
        root,
        target,
    );
    Ok(done)
}

/// A page without component tags and without root placeholders comes out
/// of the passes as it went in.
pub proof fn lemma_plain_page_unchanged(
    content: Seq<char>,
    target: Seq<char>,
    import_word: Seq<char>,
    registry: RegistryView,
    snippets: SnippetTexts,
    syntax: SyntaxView,
    max_steps: nat,
)
    requires
        first_captures(tag_pattern(syntax.re_start, syntax.re_end), content) == Some(
            None::<Seq<Option<Seq<char>>>>,
        ),
        !occurs(content, syntax.root_placeholder),
    ensures
        processed(
            SourceKind::Html,
            content,
            target,
            import_word,
            registry,
            snippets,
            syntax,
            max_steps,
        ) == Ok::<ProcessedView, ExpandError>(plain(content)),
{
    lemma_no_tag_no_change(content, registry, syntax, max_steps);
}

} // verus!
