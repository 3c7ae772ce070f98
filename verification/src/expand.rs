//! The template expansion engine: component tags in a file give way to the
//! bodies of the components they name, with the parameters of the tags put
//! in, until no tag is left.

use crate::parameters::{
    bound_all, has_key, lemma_bound_all_keeps_keys, pair_texts, substitute_parameters,
    substituted, Bindings, ParameterTable, Syntax, SyntaxView,
};
use crate::path_set::texts;
use crate::pattern::{
    all_captures, escape, escaped, first_captures, group_or_empty, group_string, group_text,
    group_texts, match_texts, search_all, search_first,
};
use crate::text::{
    chars_of, contains, find, first_occurrence, insert_at, inserted,
    lemma_replaced_holds_replacement, occurs, occurs_at, push_all, replace_all, replaced, slice_of,
    string_of,
};
use vstd::prelude::*;

verus! {

/// A component as the registry knows it.
#[derive(Debug, Clone, PartialEq, Eq)]
pub struct ComponentDefinition {
    /// The name, which is that of the component's directory.
    pub name: String,
    /// The text of the body file, where the directory holds one.
    pub body: Option<String>,
    /// Whether the directory holds a style source.
    pub has_style: bool,
    /// Whether the directory holds a script source.
    pub has_script: bool,
}

/// What the contracts say of a `ComponentDefinition`.
pub struct ComponentView {
    pub name: Seq<char>,
    pub body: Option<Seq<char>>,
    pub has_style: bool,
    pub has_script: bool,
}

impl View for ComponentDefinition {
    type V = ComponentView;

    open spec fn view(&self) -> ComponentView {
        ComponentView {
            name: self.name@,
            body: match self.body {
                Some(b) => Some(b@),
                None => None,
            },
            has_style: self.has_style,
            has_script: self.has_script,
        }
    }
}

/// The components of a site: one entry for each directory under the
/// components folder.
#[derive(Debug, Clone, PartialEq, Eq)]
pub struct ComponentRegistry {
    /// The components folder, relative to the root of the site.
    pub folder: String,
    pub components: Vec<ComponentDefinition>,
}

/// What the contracts say of a `ComponentRegistry`.
pub struct RegistryView {
    pub folder: Seq<char>,
    pub components: Seq<ComponentView>,
}

impl View for ComponentRegistry {
    type V = RegistryView;

    open spec fn view(&self) -> RegistryView {
        RegistryView {
            folder: self.folder@,
            components: Seq::new(self.components@.len(), |i: int| self.components@[i]@),
        }
    }
}

/// The first of `components` with the name `name`.
pub open spec fn find_component(components: Seq<ComponentView>, name: Seq<char>) -> Option<
    ComponentView,
>
    decreases components.len(),
{
    if components.len() == 0 {
        None
    } else if components[0].name == name {
        Some(components[0])
    } else {
        find_component(components.skip(1), name)
    }
}

impl ComponentRegistry {
    /// The component with the name `name`, if the registry has one.
    pub fn find(&self, name: &str) -> (found: Option<&ComponentDefinition>)
        ensures
            match find_component(self@.components, name@) {
                Some(c) => found is Some && found->Some_0@ == c,
                None => found is None,
            },
    {
        let wanted: String = name.to_owned();
        let ghost all: Seq<ComponentView> = self@.components;
        let mut i: usize = 0;
        assert(all.skip(0) == all);
        while i < self.components.len()
            invariant
                i <= self.components.len(),
                wanted@ == name@,
                all == self@.components,
                find_component(all.skip(i as int), name@) == find_component(all, name@),
            decreases self.components.len() - i,
        {
            assert(all.skip(i as int).skip(1) == all.skip(i + 1));
            if self.components[i].name == wanted {
                return Some(&self.components[i]);
            }
            i = i + 1;
        }
        None
    }
}

/// What went wrong with a tag. The expansion goes on after either.
#[derive(Debug, Clone, PartialEq, Eq)]
pub enum Diagnostic {
    /// The tag names a component that has no directory.
    MissingComponentDirectory { name: String },
    /// The component's directory holds no body file.
    MissingComponentBody { name: String },
}

/// What the contracts say of a `Diagnostic`.
pub enum DiagnosticView {
    MissingComponentDirectory { name: Seq<char> },
    MissingComponentBody { name: Seq<char> },
}

impl View for Diagnostic {
    type V = DiagnosticView;

    open spec fn view(&self) -> DiagnosticView {
        match self {
            Diagnostic::MissingComponentDirectory { name } => {
                DiagnosticView::MissingComponentDirectory { name: name@ }
            },
            Diagnostic::MissingComponentBody { name } => {
                DiagnosticView::MissingComponentBody { name: name@ }
            },
        }
    }
}

impl Diagnostic {
    /// The name of the component that the diagnostic is about.
    pub fn component(&self) -> (name: &String)
        ensures
            name@ == match self@ {
                DiagnosticView::MissingComponentDirectory { name } => name,
                DiagnosticView::MissingComponentBody { name } => name,
            },
    {
        match self {
            Diagnostic::MissingComponentDirectory { name } => name,
            Diagnostic::MissingComponentBody { name } => name,
        }
    }

    /// Whether the component's directory was missing, not only its body.
    pub fn is_missing_directory(&self) -> (r: bool)
        ensures
            r == (self@ is MissingComponentDirectory),
    {
        match self {
            Diagnostic::MissingComponentDirectory { .. } => true,
            Diagnostic::MissingComponentBody { .. } => false,
        }
    }
}

/// The views of a sequence of diagnostics.
pub open spec fn diagnostic_views(diagnostics: Seq<Diagnostic>) -> Seq<DiagnosticView> {
    Seq::new(diagnostics.len(), |i: int| diagnostics[i]@)
}

/// Why an expansion gave no text.
#[derive(Debug, Clone, Copy, PartialEq, Eq, Structural)]
pub enum ExpandError {
    /// The tokens gave a pattern that is not accepted as a regular
    /// expression.
    PatternRejected,
    /// Tags were still left after the allowed number of steps.
    ExpansionDepthExceeded,
}

/// The state of one file's expansion: the text as it stands, the parameters
/// bound so far, the links put into the head and the diagnostics.
#[derive(Debug, Clone, PartialEq, Eq)]
pub struct ExpansionContext {
    pub text: String,
    pub parameters: ParameterTable,
    pub head_injections: Vec<String>,
    pub diagnostics: Vec<Diagnostic>,
}

/// What the contracts say of an `ExpansionContext`.
pub struct ContextView {
    pub text: Seq<char>,
    pub parameters: Bindings,
    pub head_injections: Seq<Seq<char>>,
    pub diagnostics: Seq<DiagnosticView>,
}

impl View for ExpansionContext {
    type V = ContextView;

    open spec fn view(&self) -> ContextView {
        ContextView {
            text: self.text@,
            parameters: self.parameters@,
            head_injections: texts(self.head_injections@),
            diagnostics: diagnostic_views(self.diagnostics@),
        }
    }
}

/// The state in which the expansion of `text` begins.
pub open spec fn start_context(text: Seq<char>) -> ContextView {
    ContextView {
        text,
        parameters: Seq::<(Seq<char>, Seq<char>)>::empty(),
        head_injections: Seq::<Seq<char>>::empty(),
        diagnostics: Seq::<DiagnosticView>::empty(),
    }
}

impl ExpansionContext {
    /// The state in which the expansion of `text` begins: nothing bound,
    /// nothing injected, nothing reported.
    pub fn start(text: &str) -> (ctx: ExpansionContext)
        ensures
            ctx@ == start_context(text@),
    {
        let ctx = ExpansionContext {
            text: text.to_owned(),
            parameters: ParameterTable::new(),
            head_injections: Vec::new(),
            diagnostics: Vec::new(),
        };
        assert(ctx@.head_injections == Seq::<Seq<char>>::empty());
        assert(ctx@.diagnostics == Seq::<DiagnosticView>::empty());
        ctx
    }
}

/// The regular expression that finds a component tag: the start token, a
/// name of letters, digits, `_` and `-`, the attributes up to the end token.
pub open spec fn tag_pattern(re_start: Seq<char>, re_end: Seq<char>) -> Seq<char> {
    escaped(re_start) + "([a-zA-Z0-9_-]+)([^>]*)"@ + escaped(re_end)
}

/// The regular expression that finds one attribute: a key, `=`, and a value
/// in single quotes, in double quotes or bare.
pub open spec fn attribute_pattern() -> Seq<char> {
    "(?P<key>[a-zA-Z0-9_-]+)=(?P<value>'[^']*'|\"[^\"]*\"|[^\\s'\"]+)"@
}

/// `value` without the pair of quotes around it, if it has one.
pub open spec fn unquoted(value: Seq<char>) -> Seq<char> {
    if value.len() >= 2 && ((value[0] == '"' && value.last() == '"') || (value[0] == '\''
        && value.last() == '\'')) {
        value.subrange(1, value.len() - 1)
    } else {
        value
    }
}

/// The bindings that the attribute matches `found` make: for each match its
/// key with its value, the quotes taken off.
pub open spec fn bindings_of(found: Seq<Seq<Option<Seq<char>>>>) -> Bindings {
    Seq::new(
        found.len(),
        |i: int| (group_or_empty(found[i], 1), unquoted(group_or_empty(found[i], 2))),
    )
}

/// What stands in place of a tag whose component has no directory.
pub open spec fn missing_directory_marker(name: Seq<char>) -> Seq<char> {
    "<!-- ERROR: Component '"@ + name + "' directory not found. -->"@
}

/// What stands in place of a tag whose component has no body file.
pub open spec fn missing_body_marker(name: Seq<char>) -> Seq<char> {
    "<!-- ERROR: HTML file for Component '"@ + name + "' not found. -->"@
}

/// The marker that closes the head of a document.
pub open spec fn head_close() -> Seq<char> {
    "</head>"@
}

/// The path of a compiled asset of the component `name`, relative to the
/// root placeholder, without its extension.
pub open spec fn asset_stem(root: Seq<char>, folder: Seq<char>, name: Seq<char>) -> Seq<char> {
    root + seq!['/'] + folder + seq!['/'] + name + seq!['/'] + name
}

/// The link to the compiled stylesheet of the component `name`.
pub open spec fn stylesheet_link(root: Seq<char>, folder: Seq<char>, name: Seq<char>) -> Seq<
    char,
> {
    "<link rel=\"stylesheet\" href=\""@ + asset_stem(root, folder, name) + ".css\">\n"@
}

/// The tag that loads the compiled script of the component `name`.
pub open spec fn script_link(root: Seq<char>, folder: Seq<char>, name: Seq<char>) -> Seq<char> {
    "<script defer src=\""@ + asset_stem(root, folder, name) + ".js\"></script>\n"@
}

/// Whether the stylesheet link of `component` is to be put into `text`: the
/// text has a head, the component has a style source, and the link is not
/// there yet.
pub open spec fn adds_stylesheet(
    text: Seq<char>,
    component: ComponentView,
    folder: Seq<char>,
    root: Seq<char>,
) -> bool {
    &&& occurs(text, head_close())
    &&& component.has_style
    &&& !occurs(text, stylesheet_link(root, folder, component.name))
}

/// Whether the script tag of `component` is to be put into `text`.
pub open spec fn adds_script(
    text: Seq<char>,
    component: ComponentView,
    folder: Seq<char>,
    root: Seq<char>,
) -> bool {
    &&& occurs(text, head_close())
    &&& component.has_script
    &&& !occurs(text, script_link(root, folder, component.name))
}

/// The links that `component` adds to the head of `text`: the stylesheet
/// link, then the script tag, each only where it is to be put in.
pub open spec fn new_links(
    text: Seq<char>,
    component: ComponentView,
    folder: Seq<char>,
    root: Seq<char>,
) -> Seq<Seq<char>> {
    (if adds_stylesheet(text, component, folder, root) {
        seq![stylesheet_link(root, folder, component.name)]
    } else {
        Seq::<Seq<char>>::empty()
    }) + (if adds_script(text, component, folder, root) {
        seq![script_link(root, folder, component.name)]
    } else {
        Seq::<Seq<char>>::empty()
    })
}

/// The leftmost position at which `needle` stands in `hay`.
pub open spec fn first_position(hay: Seq<char>, needle: Seq<char>) -> int {
    choose|i: int| first_occurrence(hay, needle, i)
}

/// `text` with the links that `component` adds put in just before the first
/// head-close marker. A text without such a marker stays as it is.
pub open spec fn with_head_assets(
    text: Seq<char>,
    component: ComponentView,
    folder: Seq<char>,
    root: Seq<char>,
) -> Seq<char> {
    if occurs(text, head_close()) {
        inserted(
            text,
            first_position(text, head_close()),
            (if adds_stylesheet(text, component, folder, root) {
                stylesheet_link(root, folder, component.name)
            } else {
                Seq::<char>::empty()
            }) + (if adds_script(text, component, folder, root) {
                script_link(root, folder, component.name)
            } else {
                Seq::<char>::empty()
            }),
        )
    } else {
        text
    }
}

/// The state after one tag was resolved. `full` is the tag as it stands in
/// the text, `name` the component it names, `pairs` its attributes.
///
/// The attributes are bound first, whatever becomes of the tag. A component
/// without a directory or without a body leaves an error marker in place of
/// the tag and a diagnostic. Else the parameters are put into the body, the
/// component's links are put into the head, and the body takes the place of
/// the tag, wherever the tag stands in the text.
pub open spec fn applied_tag(
    ctx: ContextView,
    full: Seq<char>,
    name: Seq<char>,
    pairs: Bindings,
    registry: RegistryView,
    syntax: SyntaxView,
) -> ContextView {
    let parameters: Bindings = bound_all(ctx.parameters, pairs);
    match find_component(registry.components, name) {
        None => ContextView {
            text: replaced(ctx.text, full, missing_directory_marker(name)),
            parameters,
            head_injections: ctx.head_injections,
            diagnostics: ctx.diagnostics.push(DiagnosticView::MissingComponentDirectory { name }),
        },
        Some(component) => match component.body {
            None => ContextView {
                text: replaced(ctx.text, full, missing_body_marker(name)),
                parameters,
                head_injections: ctx.head_injections,
                diagnostics: ctx.diagnostics.push(DiagnosticView::MissingComponentBody { name }),
            },
            Some(body) => ContextView {
                text: replaced(
                    with_head_assets(
                        ctx.text,
                        component,
                        registry.folder,
                        syntax.root_placeholder,
                    ),
                    full,
                    substituted(body, parameters, syntax),
                ),
                parameters,
                head_injections: ctx.head_injections + new_links(
                    ctx.text,
                    component,
                    registry.folder,
                    syntax.root_placeholder,
                ),
                diagnostics: ctx.diagnostics,
            },
        },
    }
}

/// The outcome of expanding from the state `ctx` with at most `steps` tags
/// resolved.
///
/// While the text holds a tag, the leftmost one is resolved. The expansion
/// ends well when no tag is left. It fails when a tag is left and no step is,
/// or when a pattern is not accepted.
pub open spec fn expanded(
    ctx: ContextView,
    registry: RegistryView,
    syntax: SyntaxView,
    steps: nat,
) -> Result<ContextView, ExpandError>
    decreases steps,
{
    match first_captures(tag_pattern(syntax.re_start, syntax.re_end), ctx.text) {
        None => Err(ExpandError::PatternRejected),
        Some(None) => Ok(ctx),
        Some(Some(groups)) => if steps == 0 {
            Err(ExpandError::ExpansionDepthExceeded)
        } else {
            match all_captures(attribute_pattern(), group_or_empty(groups, 2)) {
                None => Err(ExpandError::PatternRejected),
                Some(found) => expanded(
                    applied_tag(
                        ctx,
                        group_or_empty(groups, 0),
                        group_or_empty(groups, 1),
                        bindings_of(found),
                        registry,
                        syntax,
                    ),
                    registry,
                    syntax,
                    (steps - 1) as nat,
                ),
            }
        },
    }
}

/// Resolving a tag removes no binding: a key that was bound before the step
/// is bound after it, whatever the tag names and whatever it binds.
pub proof fn lemma_step_keeps_bindings(
    ctx: ContextView,
    full: Seq<char>,
    name: Seq<char>,
    pairs: Bindings,
    registry: RegistryView,
    syntax: SyntaxView,
    key: Seq<char>,
)
    requires
        has_key(ctx.parameters, key),
    ensures
        has_key(applied_tag(ctx, full, name, pairs, registry, syntax).parameters, key),
{
    lemma_bound_all_keeps_keys(ctx.parameters, pairs, key);
}

/// The marker for a component without a directory names the component.
pub proof fn lemma_marker_names_component(name: Seq<char>)
    ensures
        occurs(missing_directory_marker(name), name),
        occurs(missing_body_marker(name), name),
{
    let head: Seq<char> = "<!-- ERROR: Component '"@;
    let marker: Seq<char> = missing_directory_marker(name);
    assert(marker.subrange(head.len() as int, (head.len() + name.len()) as int) == name);
    assert(occurs_at(marker, name, head.len() as int));
    let body_head: Seq<char> = "<!-- ERROR: HTML file for Component '"@;
    let body_marker: Seq<char> = missing_body_marker(name);
    assert(body_marker.subrange(
        body_head.len() as int,
        (body_head.len() + name.len()) as int,
    ) == name);
    assert(occurs_at(body_marker, name, body_head.len() as int));
}

/// A tag that names a component without a directory does not end the
/// expansion. The tag gives way to the error marker, which names the
/// component, a diagnostic is added, nothing is put into the head, and the
/// expansion goes on with the text that is left.
pub proof fn lemma_missing_component_step(
    ctx: ContextView,
    registry: RegistryView,
    syntax: SyntaxView,
    steps: nat,
    groups: Seq<Option<Seq<char>>>,
    found: Seq<Seq<Option<Seq<char>>>>,
)
    requires
        steps > 0,
        first_captures(tag_pattern(syntax.re_start, syntax.re_end), ctx.text) == Some(Some(groups)),
        all_captures(attribute_pattern(), group_or_empty(groups, 2)) == Some(found),
        find_component(registry.components, group_or_empty(groups, 1)) is None,
    ensures
        ({
            let full: Seq<char> = group_or_empty(groups, 0);
            let name: Seq<char> = group_or_empty(groups, 1);
            let after: ContextView = applied_tag(
                ctx,
                full,
                name,
                bindings_of(found),
                registry,
                syntax,
            );
            &&& expanded(ctx, registry, syntax, steps) == expanded(
                after,
                registry,
                syntax,
                (steps - 1) as nat,
            )
            &&& after.text == replaced(ctx.text, full, missing_directory_marker(name))
            &&& after.diagnostics == ctx.diagnostics.push(
                DiagnosticView::MissingComponentDirectory { name },
            )
            &&& after.head_injections == ctx.head_injections
            &&& occurs(missing_directory_marker(name), name)
            &&& full.len() > 0 && occurs(ctx.text, full) ==> occurs(
                after.text,
                missing_directory_marker(name),
            )
        }),
{
    let full: Seq<char> = group_or_empty(groups, 0);
    let name: Seq<char> = group_or_empty(groups, 1);
    lemma_marker_names_component(name);
    if full.len() > 0 && occurs(ctx.text, full) {
        lemma_replaced_holds_replacement(ctx.text, full, missing_directory_marker(name));
    }
}

/// A file whose one tag names a component without a directory is expanded
/// all the same: the result is the file with the error marker in place of
/// the tag and with the one diagnostic.
pub proof fn lemma_missing_component_whole_file(
    text: Seq<char>,
    registry: RegistryView,
    syntax: SyntaxView,
    steps: nat,
    groups: Seq<Option<Seq<char>>>,
    found: Seq<Seq<Option<Seq<char>>>>,
)
    requires
        steps > 0,
        first_captures(tag_pattern(syntax.re_start, syntax.re_end), text) == Some(Some(groups)),
        all_captures(attribute_pattern(), group_or_empty(groups, 2)) == Some(found),
        find_component(registry.components, group_or_empty(groups, 1)) is None,
        first_captures(
            tag_pattern(syntax.re_start, syntax.re_end),
            replaced(
                text,
                group_or_empty(groups, 0),
                missing_directory_marker(group_or_empty(groups, 1)),
            ),
        ) == Some(None::<Seq<Option<Seq<char>>>>),
    ensures
        expanded(start_context(text), registry, syntax, steps) is Ok,
        expanded(start_context(text), registry, syntax, steps)->Ok_0.text == replaced(
            text,
            group_or_empty(groups, 0),
            missing_directory_marker(group_or_empty(groups, 1)),
        ),
        expanded(start_context(text), registry, syntax, steps)->Ok_0.diagnostics == seq![
            DiagnosticView::MissingComponentDirectory { name: group_or_empty(groups, 1) },
        ],
{
    let ctx: ContextView = start_context(text);
    lemma_missing_component_step(ctx, registry, syntax, steps, groups, found);
    let after: ContextView = applied_tag(
        ctx,
        group_or_empty(groups, 0),
        group_or_empty(groups, 1),
        bindings_of(found),
        registry,
        syntax,
    );
    assert(expanded(after, registry, syntax, (steps - 1) as nat) == Ok::<
        ContextView,
        ExpandError,
    >(after));
    assert(after.diagnostics =~= seq![
        DiagnosticView::MissingComponentDirectory { name: group_or_empty(groups, 1) },
    ]);
}

/// No diagnostic is lost: what an expansion that ends well reports begins
/// with what was reported when it started.
pub proof fn lemma_diagnostics_kept(
    ctx: ContextView,
    registry: RegistryView,
    syntax: SyntaxView,
    steps: nat,
)
    requires
        expanded(ctx, registry, syntax, steps) is Ok,
    ensures
        ctx.diagnostics.len() <= expanded(ctx, registry, syntax, steps)->Ok_0.diagnostics.len(),
        expanded(ctx, registry, syntax, steps)->Ok_0.diagnostics.take(
            ctx.diagnostics.len() as int,
        ) == ctx.diagnostics,
    decreases steps,
{
    match first_captures(tag_pattern(syntax.re_start, syntax.re_end), ctx.text) {
        Some(Some(groups)) => {
            match all_captures(attribute_pattern(), group_or_empty(groups, 2)) {
                Some(found) => {
                    let after: ContextView = applied_tag(
                        ctx,
                        group_or_empty(groups, 0),
                        group_or_empty(groups, 1),
                        bindings_of(found),
                        registry,
                        syntax,
                    );
                    lemma_diagnostics_kept(after, registry, syntax, (steps - 1) as nat);
                    let done: Seq<DiagnosticView> = expanded(
                        after,
                        registry,
                        syntax,
                        (steps - 1) as nat,
                    )->Ok_0.diagnostics;
                    assert(after.diagnostics.take(ctx.diagnostics.len() as int)
                        == ctx.diagnostics);
                    assert(done.take(ctx.diagnostics.len() as int) == done.take(
                        after.diagnostics.len() as int,
                    ).take(ctx.diagnostics.len() as int));
                },
                None => {},
            }
        },
        Some(None) => {
            assert(ctx.diagnostics.take(ctx.diagnostics.len() as int) == ctx.diagnostics);
        },
        None => {},
    }
}

/// A missing component is reported whatever follows: where the first tag
/// of a text names a component without a directory and the expansion ends
/// well, its diagnostics begin with the one for that component.
pub proof fn lemma_missing_component_reported(
    text: Seq<char>,
    registry: RegistryView,
    syntax: SyntaxView,
    steps: nat,
    groups: Seq<Option<Seq<char>>>,
    found: Seq<Seq<Option<Seq<char>>>>,
)
    requires
        first_captures(tag_pattern(syntax.re_start, syntax.re_end), text) == Some(Some(groups)),
        all_captures(attribute_pattern(), group_or_empty(groups, 2)) == Some(found),
        find_component(registry.components, group_or_empty(groups, 1)) is None,
        expanded(start_context(text), registry, syntax, steps) is Ok,
    ensures
        expanded(start_context(text), registry, syntax, steps)->Ok_0.diagnostics.len() > 0,
        expanded(start_context(text), registry, syntax, steps)->Ok_0.diagnostics[0]
            == (DiagnosticView::MissingComponentDirectory { name: group_or_empty(groups, 1) }),
{
    let ctx: ContextView = start_context(text);
    lemma_missing_component_step(ctx, registry, syntax, steps, groups, found);
    let after: ContextView = applied_tag(
        ctx,
        group_or_empty(groups, 0),
        group_or_empty(groups, 1),
        bindings_of(found),
        registry,
        syntax,
    );
    lemma_diagnostics_kept(after, registry, syntax, (steps - 1) as nat);
    let done: Seq<DiagnosticView> = expanded(
        after,
        registry,
        syntax,
        (steps - 1) as nat,
    )->Ok_0.diagnostics;
    assert(done.take(after.diagnostics.len() as int)[0] == after.diagnostics[0]);
}

/// The number of steps allowed does not shape the result: an expansion
/// that ends well within some number of steps ends in the same state within
/// any larger number.
pub proof fn lemma_more_steps_same_result(
    ctx: ContextView,
    registry: RegistryView,
    syntax: SyntaxView,
    steps: nat,
    more: nat,
)
    requires
        steps <= more,
        expanded(ctx, registry, syntax, steps) is Ok,
    ensures
        expanded(ctx, registry, syntax, more) == expanded(ctx, registry, syntax, steps),
    decreases steps,
{
    match first_captures(tag_pattern(syntax.re_start, syntax.re_end), ctx.text) {
        Some(Some(groups)) => {
            match all_captures(attribute_pattern(), group_or_empty(groups, 2)) {
                Some(found) => {
                    lemma_more_steps_same_result(
                        applied_tag(
                            ctx,
                            group_or_empty(groups, 0),
                            group_or_empty(groups, 1),
                            bindings_of(found),
                            registry,
                            syntax,
                        ),
                        registry,
                        syntax,
                        (steps - 1) as nat,
                        (more - 1) as nat,
                    );
                },
                None => {},
            }
        },
        _ => {},
    }
}

/// Text that holds no tag is left as it is, with nothing bound, injected or
/// reported, whatever the registry holds and however few steps are allowed.
pub proof fn lemma_no_tag_no_change(
    text: Seq<char>,
    registry: RegistryView,
    syntax: SyntaxView,
    steps: nat,
)
    requires
        first_captures(tag_pattern(syntax.re_start, syntax.re_end), text) == Some(
            None::<Seq<Option<Seq<char>>>>,
        ),
    ensures
        expanded(start_context(text), registry, syntax, steps) == Ok::<ContextView, ExpandError>(
            start_context(text),
        ),
{
}

/// `value` without the pair of quotes around it, if it has one.
pub fn unquote(value: &Vec<char>) -> (out: Vec<char>)
    ensures
        out@ == unquoted(value@),
{
    let n: usize = value.len();
    if n >= 2 && ((value[0] == '"' && value[n - 1] == '"') || (value[0] == '\'' && value[n - 1]
        == '\'')) {
        slice_of(value, 1, n - 1)
    } else {
        slice_of(value, 0, n)
    }
}

/// The bindings that the attribute matches `found` make.
pub fn bindings_in_matches(found: &Vec<Vec<Option<String>>>) -> (pairs: Vec<(String, String)>)
    ensures
        pair_texts(pairs@) == bindings_of(match_texts(found@)),
{
    let mut pairs: Vec<(String, String)> = Vec::new();
    let mut i: usize = 0;
    let ghost all: Seq<Seq<Option<Seq<char>>>> = match_texts(found@);
    while i < found.len()
        invariant
            i <= found.len(),
            all == match_texts(found@),
            pairs@.len() == i,
            forall|k: int| 0 <= k < i ==> pair_texts(pairs@)[k] == #[trigger] bindings_of(all)[k],
        decreases found.len() - i,
    {
        let key: String = group_string(&found[i], 1);
        let raw: Vec<char> = group_text(&found[i], 2);
        let value: Vec<char> = unquote(&raw);
        let ghost before: Seq<(String, String)> = pairs@;
        pairs.push((key, string_of(&value)));
        proof {
            assert(all[i as int] == group_texts(found@[i as int]@));
            assert forall|k: int| 0 <= k < i + 1 implies pair_texts(pairs@)[k]
                == #[trigger] bindings_of(all)[k] by {
                if k < i {
                    assert(pairs@[k] == before[k]);
                    assert(pair_texts(before)[k] == bindings_of(all)[k]);
                }
            }
        }
        i = i + 1;
    }
    assert(pair_texts(pairs@) =~= bindings_of(all));
    pairs
}

/// What stands in place of a tag whose component has no directory.
pub fn directory_marker(name: &str) -> (out: Vec<char>)
    ensures
        out@ == missing_directory_marker(name@),
{
    let mut out: Vec<char> = chars_of("<!-- ERROR: Component '");
    push_all(&mut out, &chars_of(name));
    push_all(&mut out, &chars_of("' directory not found. -->"));
    out
}

/// What stands in place of a tag whose component has no body file.
pub fn body_marker(name: &str) -> (out: Vec<char>)
    ensures
        out@ == missing_body_marker(name@),
{
    let mut out: Vec<char> = chars_of("<!-- ERROR: HTML file for Component '");
    push_all(&mut out, &chars_of(name));
    push_all(&mut out, &chars_of("' not found. -->"));
    out
}

/// Appends the path of a compiled asset of the component `name`, without its
/// extension.
fn push_asset_stem(out: &mut Vec<char>, root: &str, folder: &str, name: &str)
    ensures
        final(out)@ == old(out)@ + asset_stem(root@, folder@, name@),
{
    let name_chars: Vec<char> = chars_of(name);
    push_all(out, &chars_of(root));
    out.push('/');
    push_all(out, &chars_of(folder));
    out.push('/');
    push_all(out, &name_chars);
    out.push('/');
    push_all(out, &name_chars);
}

/// The link to the compiled stylesheet of the component `name`.
pub fn stylesheet_link_for(root: &str, folder: &str, name: &str) -> (out: Vec<char>)
    ensures
        out@ == stylesheet_link(root@, folder@, name@),
{
    let mut out: Vec<char> = chars_of("<link rel=\"stylesheet\" href=\"");
    push_asset_stem(&mut out, root, folder, name);
    push_all(&mut out, &chars_of(".css\">\n"));
    out
}

/// The tag that loads the compiled script of the component `name`.
pub fn script_link_for(root: &str, folder: &str, name: &str) -> (out: Vec<char>)
    ensures
        out@ == script_link(root@, folder@, name@),
{
    let mut out: Vec<char> = chars_of("<script defer src=\"");
    push_asset_stem(&mut out, root, folder, name);
    push_all(&mut out, &chars_of(".js\"></script>\n"));
    out
}

/// Puts the links of `component` into the head of `text`: its stylesheet
/// link where it has a style source, its script tag where it has a script
/// source, each only if it is not yet in the text, both just before the
/// first head-close marker. Without such a marker nothing is put in. The
/// links put in are added to `injected`.
pub fn inject_head_assets(
    text: &Vec<char>,
    component: &ComponentDefinition,
    folder: &str,
    root: &str,
    injected: &mut Vec<String>,
) -> (out: Vec<char>)
    ensures
        out@ == with_head_assets(text@, component@, folder@, root@),
        texts(final(injected)@) == texts(old(injected)@) + new_links(
            text@,
            component@,
            folder@,
            root@,
        ),
{
    let closing: Vec<char> = chars_of("</head>");
    match find(text, &closing) {
        None => {
            let n: usize = text.len();
            slice_of(text, 0, n)
        },
        Some(at) => {
            let mut piece: Vec<char> = Vec::new();
            if component.has_style {
                let link: Vec<char> = stylesheet_link_for(root, folder, component.name.as_str());
                if !contains(text, &link) {
                    push_all(&mut piece, &link);
                    injected.push(string_of(&link));
                }
            }
            if component.has_script {
                let link: Vec<char> = script_link_for(root, folder, component.name.as_str());
                if !contains(text, &link) {
                    push_all(&mut piece, &link);
                    injected.push(string_of(&link));
                }
            }
            insert_at(text, at, &piece)
        },
    }
}

/// Resolves one tag in the state `ctx`. `full_tag` is the tag as it stands
/// in the text, `name` the component it names, `pairs` its attributes.
pub fn apply_tag(
    ctx: &mut ExpansionContext,
    full_tag: &str,
    name: &str,
    pairs: &Vec<(String, String)>,
    registry: &ComponentRegistry,
    syntax: &Syntax,
)
    ensures
        final(ctx)@ == applied_tag(
            old(ctx)@,
            full_tag@,
            name@,
            pair_texts(pairs@),
            registry@,
            syntax@,
        ),
{
    let ghost before: ContextView = ctx@;
    ctx.parameters.bind_all(pairs);
    let text: Vec<char> = chars_of(ctx.text.as_str());
    let tag: Vec<char> = chars_of(full_tag);
    match registry.find(name) {
        None => {
            let marker: Vec<char> = directory_marker(name);
            ctx.text = string_of(&replace_all(&text, &tag, &marker));
            ctx.diagnostics.push(Diagnostic::MissingComponentDirectory { name: name.to_owned() });
            assert(ctx@.diagnostics == before.diagnostics.push(
                DiagnosticView::MissingComponentDirectory { name: name@ },
            ));
        },
        Some(component) => match &component.body {
            None => {
                let marker: Vec<char> = body_marker(name);
                ctx.text = string_of(&replace_all(&text, &tag, &marker));
                ctx.diagnostics.push(Diagnostic::MissingComponentBody { name: name.to_owned() });
                assert(ctx@.diagnostics == before.diagnostics.push(
                    DiagnosticView::MissingComponentBody { name: name@ },
                ));
            },
            Some(body) => {
                let body_chars: Vec<char> = chars_of(body.as_str());
                let processed: Vec<char> = substitute_parameters(
                    &body_chars,
                    &ctx.parameters,
                    syntax,
                );
                let with_head: Vec<char> = inject_head_assets(
                    &text,
                    component,
                    registry.folder.as_str(),
                    syntax.root_placeholder.as_str(),
                    &mut ctx.head_injections,
                );
                ctx.text = string_of(&replace_all(&with_head, &tag, &processed));
            },
        },
    }
}

/// The pattern that finds the component tags between `re_start` and
/// `re_end`.
pub fn tag_pattern_for(re_start: &str, re_end: &str) -> (pattern: String)
    ensures
        pattern@ == tag_pattern(re_start@, re_end@),
{
    let mut pattern: String = escape(re_start);
    let end: String = escape(re_end);
    pattern.append("([a-zA-Z0-9_-]+)([^>]*)");
    pattern.append(end.as_str());
    pattern
}

/// What `replace_html_component_placeholders` owes for the outcome that the
/// contract names.
pub open spec fn expansion_outcome(
    result: Result<ExpansionContext, ExpandError>,
    owed: Result<ContextView, ExpandError>,
) -> bool {
    match owed {
        Ok(ctx) => result is Ok && result->Ok_0@ == ctx,
        Err(e) => result is Err && result->Err_0 == e,
    }
}

/// Expands the component tags in `content`.
///
/// While the text holds a tag, the leftmost one is resolved: its attributes
/// are bound, and the tag gives way, wherever it stands, to the body of the
/// component with the parameters put in, or to an error marker where the
/// component or its body is missing. The bindings stay for the tags that
/// follow, so a component included by another sees what the outer tag bound.
///
/// At most `max_steps` tags are resolved. Where a tag is still left then, the
/// result is `ExpansionDepthExceeded`.
pub fn replace_html_component_placeholders(
    content: &str,
    registry: &ComponentRegistry,
    re_start: &str,
    re_end: &str,
    root_placeholder: &str,
    template_prefix: &str,
    none_prefix: &str,
    re_param_s: &str,
    re_param_e: &str,
    max_steps: usize,
) -> (result: Result<ExpansionContext, ExpandError>)
    ensures
        expansion_outcome(
            result,
            expanded(
                start_context(content@),
                registry@,
                SyntaxView {
                    re_start: re_start@,
                    re_end: re_end@,
                    root_placeholder: root_placeholder@,
                    template_prefix: template_prefix@,
                    none_prefix: none_prefix@,
                    re_param_s: re_param_s@,
                    re_param_e: re_param_e@,
                },
                max_steps as nat,
            ),
        ),
        first_captures(tag_pattern(re_start@, re_end@), content@) == Some(
            None::<Seq<Option<Seq<char>>>>,
        ) ==> result is Ok && result->Ok_0@ == start_context(content@),
{
    let syntax = Syntax {
        re_start: re_start.to_owned(),
        re_end: re_end.to_owned(),
        root_placeholder: root_placeholder.to_owned(),
        template_prefix: template_prefix.to_owned(),
        none_prefix: none_prefix.to_owned(),
        re_param_s: re_param_s.to_owned(),
        re_param_e: re_param_e.to_owned(),
    };
    let tags: String = tag_pattern_for(re_start, re_end);
    let mut ctx: ExpansionContext = ExpansionContext::start(content);
    let mut steps_left: usize = max_steps;
    let ghost owed: Result<ContextView, ExpandError> = expanded(
        start_context(content@),
        registry@,
        syntax@,
        max_steps as nat,
    );
    proof {
        if first_captures(tag_pattern(re_start@, re_end@), content@) == Some(
            None::<Seq<Option<Seq<char>>>>,
        ) {
            lemma_no_tag_no_change(content@, registry@, syntax@, max_steps as nat);
        }
    }
    loop
        invariant
            tags@ == tag_pattern(syntax@.re_start, syntax@.re_end),
            expanded(ctx@, registry@, syntax@, steps_left as nat) == owed,
            owed == expanded(start_context(content@), registry@, syntax@, max_steps as nat),
            syntax@ == (SyntaxView {
                re_start: re_start@,
                re_end: re_end@,
                root_placeholder: root_placeholder@,
                template_prefix: template_prefix@,
                none_prefix: none_prefix@,
                re_param_s: re_param_s@,
                re_param_e: re_param_e@,
            }),
            first_captures(tag_pattern(re_start@, re_end@), content@) == Some(
                None::<Seq<Option<Seq<char>>>>,
            ) ==> owed == Ok::<ContextView, ExpandError>(start_context(content@)),
        decreases steps_left,
    {
        match search_first(tags.as_str(), ctx.text.as_str()) {
            Err(_) => {
                return Err(ExpandError::PatternRejected);
            },
            Ok(None) => {
                return Ok(ctx);
            },
            Ok(Some(groups)) => {
                if steps_left == 0 {
                    return Err(ExpandError::ExpansionDepthExceeded);
                }
                let full: String = group_string(&groups, 0);
                let name: String = group_string(&groups, 1);
                let attributes: String = group_string(&groups, 2);
                match search_all(
                    "(?P<key>[a-zA-Z0-9_-]+)=(?P<value>'[^']*'|\"[^\"]*\"|[^\\s'\"]+)",
                    attributes.as_str(),
                ) {
                    Err(_) => {
                        return Err(ExpandError::PatternRejected);
                    },
                    Ok(found) => {
                        let pairs: Vec<(String, String)> = bindings_in_matches(&found);
                        apply_tag(
                            &mut ctx,
                            full.as_str(),
                            name.as_str(),
                            &pairs,
                            registry,
                            &syntax,
                        );
                        steps_left = steps_left - 1;
                    },
                }
            },
        }
    }
}

} // verus!
