//! The dependency closure: which files must be built again after an edit.
//!
//! A file uses a component where its text holds a tag that names it. When the
//! body of a component changes, every file that uses the component must be
//! built again, and where such a file is a component itself, so must the
//! files that use it. The rebuild set is the least set that holds the changed
//! files and is closed under this rule.

use crate::path_set::{texts, PathSet};
use crate::pattern::{
    all_captures, escape, escaped, group_or_empty, group_text, match_texts, search_all,
    PatternRejected,
};
use crate::text::{
    chars_of, first_word, first_word_of, has_prefix, push_all, starts_with, string_of,
};
use vstd::prelude::*;

verus! {

/// An HTML file whose tags have been read: its path and the names of the
/// components that its tags name, in the order of the tags.
#[derive(Debug, Clone, PartialEq, Eq)]
pub struct ScannedFile {
    pub path: String,
    pub uses: Vec<String>,
}

/// What the contracts say of a `ScannedFile`.
pub struct ScannedFileView {
    pub path: Seq<char>,
    pub uses: Seq<Seq<char>>,
}

impl View for ScannedFile {
    type V = ScannedFileView;

    open spec fn view(&self) -> ScannedFileView {
        ScannedFileView { path: self.path@, uses: texts(self.uses@) }
    }
}

/// The views of a sequence of scanned files.
pub open spec fn scanned_views(files: Seq<ScannedFile>) -> Seq<ScannedFileView> {
    Seq::new(files.len(), |i: int| files[i]@)
}

/// Where the body of the component `name` is expected:
/// `components_dir/name/name.html`.
pub open spec fn body_path(components_dir: Seq<char>, name: Seq<char>) -> Seq<char> {
    components_dir + seq!['/'] + name + seq!['/'] + name + seq!['.', 'h', 't', 'm', 'l']
}

/// A path lies under the components directory where it begins with the
/// directory and a `/`.
pub open spec fn is_component_path(path: Seq<char>, components_dir: Seq<char>) -> bool {
    starts_with(path, components_dir.push('/'))
}

/// The frontier of a rebuild set: its members under the components
/// directory, the only ones whose change reaches other files.
pub open spec fn frontier(set: Set<Seq<char>>, components_dir: Seq<char>) -> Set<Seq<char>> {
    Set::new(|p: Seq<char>| set.contains(p) && is_component_path(p, components_dir))
}

/// `file` names a component whose body is in the frontier of `set`.
pub open spec fn uses_member(
    file: ScannedFileView,
    set: Set<Seq<char>>,
    components_dir: Seq<char>,
) -> bool {
    exists|k: int|
        0 <= k < file.uses.len() && frontier(set, components_dir).contains(
            body_path(components_dir, #[trigger] file.uses[k]),
        )
}

/// `set` holds every file that uses a member of its own frontier.
pub open spec fn closed_under_use(
    set: Set<Seq<char>>,
    files: Seq<ScannedFileView>,
    components_dir: Seq<char>,
) -> bool {
    forall|i: int|
        0 <= i < files.len() && uses_member(#[trigger] files[i], set, components_dir)
            ==> set.contains(files[i].path)
}

/// `closure` is the rebuild set of `initial`: the least set that holds
/// `initial` and every file that uses a member of its frontier.
pub open spec fn is_rebuild_closure(
    closure: Set<Seq<char>>,
    initial: Set<Seq<char>>,
    files: Seq<ScannedFileView>,
    components_dir: Seq<char>,
) -> bool {
    &&& initial.subset_of(closure)
    &&& closed_under_use(closure, files, components_dir)
    &&& forall|other: Set<Seq<char>>|
        initial.subset_of(other) && #[trigger] closed_under_use(other, files, components_dir)
            ==> closure.subset_of(other)
}

/// The rebuild set after one pass over `files`: each file in turn that is not
/// yet a member and uses a member of the frontier, as it stands when the
/// file's turn comes, becomes a member.
pub open spec fn after_pass(
    files: Seq<ScannedFileView>,
    set: Set<Seq<char>>,
    components_dir: Seq<char>,
) -> Set<Seq<char>>
    decreases files.len(),
{
    if files.len() == 0 {
        set
    } else {
        let before: Set<Seq<char>> = after_pass(files.drop_last(), set, components_dir);
        if !before.contains(files.last().path) && uses_member(
            files.last(),
            before,
            components_dir,
        ) {
            before.insert(files.last().path)
        } else {
            before
        }
    }
}

/// How many of `files` are not members of `set`.
pub open spec fn missing(files: Seq<ScannedFileView>, set: Set<Seq<char>>) -> nat
    decreases files.len(),
{
    if files.len() == 0 {
        0
    } else {
        missing(files.drop_last(), set) + if set.contains(files.last().path) {
            0nat
        } else {
            1nat
        }
    }
}

/// A larger set has a larger frontier, so a file that uses a member of the
/// smaller set's frontier uses one of the larger's.
pub proof fn lemma_uses_member_monotone(
    file: ScannedFileView,
    small: Set<Seq<char>>,
    large: Set<Seq<char>>,
    components_dir: Seq<char>,
)
    requires
        small.subset_of(large),
        uses_member(file, small, components_dir),
    ensures
        uses_member(file, large, components_dir),
{
    let k: int = choose|k: int|
        0 <= k < file.uses.len() && frontier(small, components_dir).contains(
            body_path(components_dir, #[trigger] file.uses[k]),
        );
    assert(frontier(large, components_dir).contains(body_path(components_dir, file.uses[k])));
}

/// No pass removes a member: the rebuild set only grows.
pub proof fn lemma_pass_grows(
    files: Seq<ScannedFileView>,
    set: Set<Seq<char>>,
    components_dir: Seq<char>,
)
    ensures
        set.subset_of(after_pass(files, set, components_dir)),
    decreases files.len(),
{
    if files.len() > 0 {
        lemma_pass_grows(files.drop_last(), set, components_dir);
    }
}

/// What a pass adds is the path of one of the files.
pub proof fn lemma_pass_adds_files(
    files: Seq<ScannedFileView>,
    set: Set<Seq<char>>,
    components_dir: Seq<char>,
    path: Seq<char>,
)
    requires
        after_pass(files, set, components_dir).contains(path),
        !set.contains(path),
    ensures
        exists|i: int| 0 <= i < files.len() && (#[trigger] files[i]).path == path,
    decreases files.len(),
{
    if files.len() > 0 {
        let before: Set<Seq<char>> = after_pass(files.drop_last(), set, components_dir);
        if before.contains(path) {
            lemma_pass_adds_files(files.drop_last(), set, components_dir, path);
            let i: int = choose|i: int|
                0 <= i < files.drop_last().len() && (#[trigger] files.drop_last()[i]).path == path;
            assert(files[i].path == path);
        } else {
            assert(files[files.len() - 1].path == path);
        }
    }
}

/// A pass stays inside every closed set that holds the set it starts from.
pub proof fn lemma_pass_within_closed(
    files: Seq<ScannedFileView>,
    all: Seq<ScannedFileView>,
    set: Set<Seq<char>>,
    other: Set<Seq<char>>,
    components_dir: Seq<char>,
)
    requires
        set.subset_of(other),
        closed_under_use(other, all, components_dir),
        files.len() <= all.len(),
        files == all.take(files.len() as int),
    ensures
        after_pass(files, set, components_dir).subset_of(other),
    decreases files.len(),
{
    if files.len() > 0 {
        assert(files.drop_last() == all.take(files.len() - 1));
        lemma_pass_within_closed(files.drop_last(), all, set, other, components_dir);
        let before: Set<Seq<char>> = after_pass(files.drop_last(), set, components_dir);
        if uses_member(files.last(), before, components_dir) {
            lemma_uses_member_monotone(files.last(), before, other, components_dir);
        }
    }
}

/// A pass that adds nothing leaves a closed set.
pub proof fn lemma_idle_pass_closed(
    files: Seq<ScannedFileView>,
    set: Set<Seq<char>>,
    components_dir: Seq<char>,
)
    requires
        after_pass(files, set, components_dir) == set,
    ensures
        closed_under_use(set, files, components_dir),
    decreases files.len(),
{
    if files.len() > 0 {
        lemma_pass_grows(files.drop_last(), set, components_dir);
        lemma_idle_pass_closed(files.drop_last(), set, components_dir);
        assert forall|i: int|
            0 <= i < files.len() && uses_member(
                #[trigger] files[i],
                set,
                components_dir,
            ) implies set.contains(files[i].path) by {
            if i < files.len() - 1 {
                assert(files[i] == files.drop_last()[i]);
            }
        }
    }
}

/// Fewer files are missing from a larger set, and strictly fewer where the
/// larger set holds a file that the smaller lacks.
pub proof fn lemma_missing_shrinks(
    files: Seq<ScannedFileView>,
    small: Set<Seq<char>>,
    large: Set<Seq<char>>,
)
    requires
        small.subset_of(large),
    ensures
        missing(files, large) <= missing(files, small),
        (exists|i: int|
            0 <= i < files.len() && large.contains((#[trigger] files[i]).path) && !small.contains(
                files[i].path,
            )) ==> missing(files, large) < missing(files, small),
    decreases files.len(),
{
    if files.len() > 0 {
        lemma_missing_shrinks(files.drop_last(), small, large);
        if exists|i: int|
            0 <= i < files.len() && large.contains((#[trigger] files[i]).path) && !small.contains(
                files[i].path,
            ) {
            let i: int = choose|i: int|
                0 <= i < files.len() && large.contains((#[trigger] files[i]).path)
                    && !small.contains(files[i].path);
            if i < files.len() - 1 {
                assert(files.drop_last()[i] == files[i]);
            }
        }
    }
}

/// A pass that adds something leaves fewer files missing.
pub proof fn lemma_busy_pass_shrinks_missing(
    files: Seq<ScannedFileView>,
    set: Set<Seq<char>>,
    components_dir: Seq<char>,
)
    requires
        after_pass(files, set, components_dir) != set,
    ensures
        missing(files, after_pass(files, set, components_dir)) < missing(files, set),
{
    let grown: Set<Seq<char>> = after_pass(files, set, components_dir);
    lemma_pass_grows(files, set, components_dir);
    if forall|p: Seq<char>| grown.contains(p) ==> set.contains(p) {
        assert(grown =~= set);
    }
    let p: Seq<char> = choose|p: Seq<char>| grown.contains(p) && !set.contains(p);
    lemma_pass_adds_files(files, set, components_dir, p);
    lemma_missing_shrinks(files, set, grown);
}

/// The rebuild set is a fixed point: taken as the set of changed files, it
/// is its own rebuild set.
pub proof fn lemma_closure_is_fixed_point(
    closure: Set<Seq<char>>,
    initial: Set<Seq<char>>,
    files: Seq<ScannedFileView>,
    components_dir: Seq<char>,
)
    requires
        is_rebuild_closure(closure, initial, files, components_dir),
    ensures
        is_rebuild_closure(closure, closure, files, components_dir),
{
}

/// A set of changed files has one rebuild set only.
pub proof fn lemma_closure_unique(
    first: Set<Seq<char>>,
    second: Set<Seq<char>>,
    initial: Set<Seq<char>>,
    files: Seq<ScannedFileView>,
    components_dir: Seq<char>,
)
    requires
        is_rebuild_closure(first, initial, files, components_dir),
        is_rebuild_closure(second, initial, files, components_dir),
    ensures
        first == second,
{
}

/// Whatever is built again is a changed file or one of the scanned files.
pub proof fn lemma_closure_within_files(
    closure: Set<Seq<char>>,
    initial: Set<Seq<char>>,
    files: Seq<ScannedFileView>,
    components_dir: Seq<char>,
)
    requires
        is_rebuild_closure(closure, initial, files, components_dir),
    ensures
        forall|p: Seq<char>|
            closure.contains(p) ==> initial.contains(p) || exists|i: int|
                0 <= i < files.len() && (#[trigger] files[i]).path == p,
{
    let all: Set<Seq<char>> = Set::new(
        |p: Seq<char>|
            initial.contains(p) || exists|i: int|
                0 <= i < files.len() && (#[trigger] files[i]).path == p,
    );
    assert(closed_under_use(all, files, components_dir));
}

/// Where no changed file lies under the components directory, nothing else
/// is built again: the set of changed files is its own rebuild set.
pub proof fn lemma_no_component_no_cascade(
    initial: Set<Seq<char>>,
    files: Seq<ScannedFileView>,
    components_dir: Seq<char>,
)
    requires
        frontier(initial, components_dir) == Set::<Seq<char>>::empty(),
    ensures
        is_rebuild_closure(initial, initial, files, components_dir),
{
}

/// The expected path of the body of the component `name`.
pub fn component_body_path(components_dir: &Vec<char>, name: &str) -> (path: String)
    ensures
        path@ == body_path(components_dir@, name@),
{
    let name_chars: Vec<char> = chars_of(name);
    let mut out: Vec<char> = Vec::new();
    push_all(&mut out, components_dir);
    out.push('/');
    push_all(&mut out, &name_chars);
    out.push('/');
    push_all(&mut out, &name_chars);
    out.push('.');
    out.push('h');
    out.push('t');
    out.push('m');
    out.push('l');
    string_of(&out)
}

/// Whether `path` lies under the components directory.
pub fn lies_under(path: &str, components_dir: &Vec<char>) -> (r: bool)
    ensures
        r == is_component_path(path@, components_dir@),
{
    let path_chars: Vec<char> = chars_of(path);
    let mut prefix: Vec<char> = Vec::new();
    push_all(&mut prefix, components_dir);
    prefix.push('/');
    has_prefix(&path_chars, &prefix)
}

/// Whether `file` names a component whose body is a member of `front`.
pub fn uses_any(file: &ScannedFile, front: &PathSet, components_dir: &Vec<char>) -> (r: bool)
    ensures
        r == (exists|k: int|
            0 <= k < file@.uses.len() && front@.contains(
                body_path(components_dir@, #[trigger] file@.uses[k]),
            )),
{
    let mut k: usize = 0;
    while k < file.uses.len()
        invariant
            k <= file.uses.len(),
            forall|j: int|
                0 <= j < k ==> !front@.contains(
                    body_path(components_dir@, #[trigger] file@.uses[j]),
                ),
        decreases file.uses.len() - k,
    {
        let body: String = component_body_path(components_dir, file.uses[k].as_str());
        assert(file@.uses[k as int] == file.uses@[k as int]@);
        if front.contains(body.as_str()) {
            return true;
        }
        k = k + 1;
    }
    false
}

/// One pass over `files`. Each file that is not yet in `rebuilt` and names a
/// component whose body is in `front` is put into `rebuilt`, and into `front`
/// too where it lies under the components directory, so that later files of
/// the same pass already see it. Tells whether anything was added.
pub fn closure_pass(
    files: &Vec<ScannedFile>,
    components_dir: &Vec<char>,
    rebuilt: &mut PathSet,
    front: &mut PathSet,
) -> (changed: bool)
    requires
        old(rebuilt).wf(),
        old(front).wf(),
        old(front)@ == frontier(old(rebuilt)@, components_dir@),
    ensures
        final(rebuilt).wf(),
        final(front).wf(),
        final(front)@ == frontier(final(rebuilt)@, components_dir@),
        final(rebuilt)@ == after_pass(scanned_views(files@), old(rebuilt)@, components_dir@),
        old(rebuilt)@.subset_of(final(rebuilt)@),
        changed == (final(rebuilt)@ != old(rebuilt)@),
{
    let ghost views: Seq<ScannedFileView> = scanned_views(files@);
    let ghost start: Set<Seq<char>> = rebuilt@;
    let mut changed: bool = false;
    let mut i: usize = 0;
    while i < files.len()
        invariant
            i <= files.len(),
            views == scanned_views(files@),
            rebuilt.wf(),
            front.wf(),
            front@ == frontier(rebuilt@, components_dir@),
            rebuilt@ == after_pass(views.take(i as int), start, components_dir@),
            start.subset_of(rebuilt@),
            changed == (rebuilt@ != start),
        decreases files.len() - i,
    {
        let file: &ScannedFile = &files[i];
        assert(views.take(i + 1).drop_last() == views.take(i as int));
        if !rebuilt.contains(file.path.as_str()) {
            if uses_any(file, front, components_dir) {
                rebuilt.insert(file.path.clone());
                if lies_under(file.path.as_str(), components_dir) {
                    front.insert(file.path.clone());
                }
                changed = true;
            }
        }
        i = i + 1;
    }
    assert(views.take(i as int) == views);
    changed
}

/// The rebuild set of `initial` over `files`: the changed files and every
/// file that uses, through any chain of components, a changed component.
///
/// The frontier starts as the changed files under the components directory.
/// With an empty frontier the changed files are the answer. Else passes over
/// the files are made until one adds nothing.
pub fn close_over(initial: &PathSet, files: &Vec<ScannedFile>, components_dir: &str) -> (closure:
    PathSet)
    requires
        initial.wf(),
    ensures
        closure.wf(),
        is_rebuild_closure(closure@, initial@, scanned_views(files@), components_dir@),
        frontier(initial@, components_dir@) == Set::<Seq<char>>::empty() ==> closure@
            == initial@,
{
    let dir: Vec<char> = chars_of(components_dir);
    let ghost views: Seq<ScannedFileView> = scanned_views(files@);
    let mut rebuilt: PathSet = initial.duplicate();
    let mut front: PathSet = PathSet::new();
    let count: usize = initial.len();
    let mut i: usize = 0;
    proof {
        initial.lemma_view_is_order();
    }
    while i < count
        invariant
            i <= count,
            count == initial.order().len(),
            initial@ == initial.order().to_set(),
            dir@ == components_dir@,
            front.wf(),
            forall|p: Seq<char>|
                front@.contains(p) <==> initial.order().take(i as int).contains(p)
                    && is_component_path(p, dir@),
        decreases count - i,
    {
        let path: &String = initial.get(i);
        proof {
            let done: Seq<Seq<char>> = initial.order().take(i as int);
            assert(initial.order().take(i + 1) == done.push(path@));
            assert forall|p: Seq<char>| done.push(path@).contains(p) <==> done.contains(p) || p
                == path@ by {
                vstd::seq_lib::lemma_seq_contains_after_push(done, path@, p);
            }
        }
        if lies_under(path.as_str(), &dir) {
            front.insert(path.clone());
        }
        i = i + 1;
    }
    proof {
        assert(initial.order().take(i as int) == initial.order());
        assert(front@ =~= frontier(rebuilt@, dir@));
    }
    if front.is_empty() {
        proof {
            lemma_no_component_no_cascade(initial@, views, dir@);
        }
        return rebuilt;
    }
    loop
        invariant
            views == scanned_views(files@),
            dir@ == components_dir@,
            rebuilt.wf(),
            front.wf(),
            front@ == frontier(rebuilt@, dir@),
            initial@.subset_of(rebuilt@),
            forall|other: Set<Seq<char>>|
                initial@.subset_of(other) && #[trigger] closed_under_use(other, views, dir@)
                    ==> rebuilt@.subset_of(other),
        ensures
            rebuilt.wf(),
            is_rebuild_closure(rebuilt@, initial@, views, dir@),
        decreases missing(views, rebuilt@),
    {
        let ghost before: Set<Seq<char>> = rebuilt@;
        let changed: bool = closure_pass(files, &dir, &mut rebuilt, &mut front);
        proof {
            assert forall|other: Set<Seq<char>>|
                initial@.subset_of(other) && #[trigger] closed_under_use(
                    other,
                    views,
                    dir@,
                ) implies rebuilt@.subset_of(other) by {
                assert(views == views.take(views.len() as int));
                lemma_pass_within_closed(views, views, before, other, dir@);
            }
            if changed {
                lemma_busy_pass_shrinks_missing(views, before, dir@);
            } else {
                lemma_idle_pass_closed(views, before, dir@);
            }
        }
        if !changed {
            break;
        }
    }
    proof {
        if frontier(initial@, dir@) == Set::<Seq<char>>::empty() {
            lemma_no_component_no_cascade(initial@, views, dir@);
            lemma_closure_unique(rebuilt@, initial@, initial@, views, dir@);
        }
    }
    rebuilt
}

/// An HTML file of the source tree: its path, and its text where the file
/// could be read.
#[derive(Debug, Clone, PartialEq, Eq)]
pub struct HtmlSource {
    pub path: String,
    pub text: Option<String>,
}

/// What the contracts say of an `HtmlSource`.
pub struct HtmlSourceView {
    pub path: Seq<char>,
    pub text: Option<Seq<char>>,
}

impl View for HtmlSource {
    type V = HtmlSourceView;

    open spec fn view(&self) -> HtmlSourceView {
        HtmlSourceView {
            path: self.path@,
            text: match self.text {
                Some(t) => Some(t@),
                None => None,
            },
        }
    }
}

/// The views of a sequence of HTML sources.
pub open spec fn source_views(sources: Seq<HtmlSource>) -> Seq<HtmlSourceView> {
    Seq::new(sources.len(), |i: int| sources[i]@)
}

/// The regular expression that finds tags when files are scanned for the
/// components they use: the start token, as few characters of one line as
/// possible, the end token.
pub open spec fn scan_pattern(re_start: Seq<char>, re_end: Seq<char>) -> Seq<char> {
    escaped(re_start) + "(.*?)"@ + escaped(re_end)
}

/// The component names of a sequence of tag matches: for each match the
/// first word of what stands between the tokens, matches without such a word
/// left out.
pub open spec fn used_names(found: Seq<Seq<Option<Seq<char>>>>) -> Seq<Seq<char>>
    decreases found.len(),
{
    if found.len() == 0 {
        Seq::<Seq<char>>::empty()
    } else {
        let name: Seq<char> = first_word(group_or_empty(found.last(), 1));
        if name.len() > 0 {
            used_names(found.drop_last()).push(name)
        } else {
            used_names(found.drop_last())
        }
    }
}

/// The names of the components that `text` uses, or `None` where the tokens
/// give a pattern that is not accepted.
pub open spec fn component_uses_of(text: Seq<char>, re_start: Seq<char>, re_end: Seq<char>)
    -> Option<Seq<Seq<char>>> {
    match all_captures(scan_pattern(re_start, re_end), text) {
        Some(found) => Some(used_names(found)),
        None => None,
    }
}

/// What scanning makes of one source. A file that could not be read uses
/// nothing.
pub open spec fn scanned_source(source: HtmlSourceView, re_start: Seq<char>, re_end: Seq<char>)
    -> Option<ScannedFileView> {
    match source.text {
        None => Some(ScannedFileView { path: source.path, uses: Seq::<Seq<char>>::empty() }),
        Some(text) => match component_uses_of(text, re_start, re_end) {
            Some(uses) => Some(ScannedFileView { path: source.path, uses }),
            None => None,
        },
    }
}

/// What scanning makes of all sources, or `None` where the pattern was not
/// accepted for one of them.
pub open spec fn scanned_sources(
    sources: Seq<HtmlSourceView>,
    re_start: Seq<char>,
    re_end: Seq<char>,
) -> Option<Seq<ScannedFileView>>
    decreases sources.len(),
{
    if sources.len() == 0 {
        Some(Seq::<ScannedFileView>::empty())
    } else {
        match (
            scanned_sources(sources.drop_last(), re_start, re_end),
            scanned_source(sources.last(), re_start, re_end),
        ) {
            (Some(before), Some(last)) => Some(before.push(last)),
            _ => None,
        }
    }
}

/// The component names of the tag matches `found`, in their order.
pub fn names_in_matches(found: &Vec<Vec<Option<String>>>) -> (names: Vec<String>)
    ensures
        texts(names@) == used_names(match_texts(found@)),
{
    let mut names: Vec<String> = Vec::new();
    let mut i: usize = 0;
    let ghost all: Seq<Seq<Option<Seq<char>>>> = match_texts(found@);
    while i < found.len()
        invariant
            i <= found.len(),
            all == match_texts(found@),
            texts(names@) == used_names(all.take(i as int)),
        decreases found.len() - i,
    {
        let inner: Vec<char> = group_text(&found[i], 1);
        let word: Vec<char> = first_word_of(&inner);
        assert(all.take(i + 1).drop_last() == all.take(i as int));
        if word.len() > 0 {
            let name: String = string_of(&word);
            names.push(name);
        }
        i = i + 1;
    }
    assert(all.take(i as int) == all);
    names
}

/// The pattern that finds the tags between `re_start` and `re_end`.
pub fn scan_pattern_for(re_start: &str, re_end: &str) -> (pattern: String)
    ensures
        pattern@ == scan_pattern(re_start@, re_end@),
{
    let mut pattern: String = escape(re_start);
    let end: String = escape(re_end);
    pattern.append("(.*?)");
    pattern.append(end.as_str());
    pattern
}

/// The names of the components that `text` uses: for each tag, from
/// `re_start` to the nearest `re_end` on the same line, the first word
/// between the two. Fails where the tokens give a pattern that is not
/// accepted as a regular expression.
pub fn component_uses(text: &str, re_start: &str, re_end: &str) -> (r: Result<
    Vec<String>,
    PatternRejected,
>)
    ensures
        match component_uses_of(text@, re_start@, re_end@) {
            Some(names) => r is Ok && texts(r->Ok_0@) == names,
            None => r is Err,
        },
{
    let pattern: String = scan_pattern_for(re_start, re_end);
    match search_all(pattern.as_str(), text) {
        Ok(found) => Ok(names_in_matches(&found)),
        Err(_) => Err(PatternRejected),
    }
}

/// Scans every source for the components it uses. A source without text
/// uses none.
pub fn scan_sources(sources: &Vec<HtmlSource>, re_start: &str, re_end: &str) -> (r: Result<
    Vec<ScannedFile>,
    PatternRejected,
>)
    ensures
        match scanned_sources(source_views(sources@), re_start@, re_end@) {
            Some(files) => r is Ok && scanned_views(r->Ok_0@) == files,
            None => r is Err,
        },
{
    let mut files: Vec<ScannedFile> = Vec::new();
    let mut i: usize = 0;
    let ghost views: Seq<HtmlSourceView> = source_views(sources@);
    while i < sources.len()
        invariant
            i <= sources.len(),
            views == source_views(sources@),
            scanned_sources(views.take(i as int), re_start@, re_end@) == Some(
                scanned_views(files@),
            ),
        decreases sources.len() - i,
    {
        let source: &HtmlSource = &sources[i];
        assert(views.take(i + 1).drop_last() == views.take(i as int));
        let uses: Vec<String> = match &source.text {
            None => Vec::new(),
            Some(text) => match component_uses(text.as_str(), re_start, re_end) {
                Ok(names) => names,
                Err(e) => {
                    proof {
                        lemma_scan_fails_on(views, i as int, re_start@, re_end@);
                    }
                    return Err(e);
                },
            },
        };
        let file: ScannedFile = ScannedFile { path: source.path.clone(), uses };
        assert(texts(file.uses@) == scanned_source(source@, re_start@, re_end@)->Some_0.uses);
        files.push(file);
        i = i + 1;
    }
    assert(views.take(i as int) == views);
    Ok(files)
}

/// Scanning fails as a whole where it fails on one source.
pub proof fn lemma_scan_fails_on(
    sources: Seq<HtmlSourceView>,
    i: int,
    re_start: Seq<char>,
    re_end: Seq<char>,
)
    requires
        0 <= i < sources.len(),
        scanned_source(sources[i], re_start, re_end) is None,
    ensures
        scanned_sources(sources, re_start, re_end) is None,
    decreases sources.len(),
{
    if i < sources.len() - 1 {
        lemma_scan_fails_on(sources.drop_last(), i, re_start, re_end);
    }
}

/// The outcome of finding the files that need recompiling.
///
/// Where no changed file lies under the components directory the changed
/// files are the answer, whatever the tokens are. Else the sources are
/// scanned: the answer is the rebuild set over what they use, and there is
/// none where the tokens give a pattern that is not accepted.
pub open spec fn recompile_outcome(
    outcome: Result<PathSet, PatternRejected>,
    sources: Seq<HtmlSourceView>,
    re_start: Seq<char>,
    re_end: Seq<char>,
    initial: Set<Seq<char>>,
    components_dir: Seq<char>,
) -> bool {
    if frontier(initial, components_dir) == Set::<Seq<char>>::empty() {
        outcome is Ok && outcome->Ok_0@ == initial
    } else {
        match scanned_sources(sources, re_start, re_end) {
            Some(files) => outcome is Ok && is_rebuild_closure(
                outcome->Ok_0@,
                initial,
                files,
                components_dir,
            ),
            None => outcome is Err,
        }
    }
}

/// Finding the files that need recompiling a second time, from what the
/// first time gave, gives the same files: the rebuild set is a fixed point of
/// the resolver.
pub proof fn lemma_recompiling_again_changes_nothing(
    first: Result<PathSet, PatternRejected>,
    second: Result<PathSet, PatternRejected>,
    sources: Seq<HtmlSourceView>,
    re_start: Seq<char>,
    re_end: Seq<char>,
    initial: Set<Seq<char>>,
    components_dir: Seq<char>,
)
    requires
        recompile_outcome(first, sources, re_start, re_end, initial, components_dir),
        first is Ok,
        recompile_outcome(second, sources, re_start, re_end, first->Ok_0@, components_dir),
    ensures
        second is Ok,
        second->Ok_0@ == first->Ok_0@,
{
    let once: Set<Seq<char>> = first->Ok_0@;
    if frontier(once, components_dir) != Set::<Seq<char>>::empty() {
        if frontier(initial, components_dir) == Set::<Seq<char>>::empty() {
            assert(once == initial);
        } else {
            let files: Seq<ScannedFileView> = scanned_sources(sources, re_start, re_end)->Some_0;
            lemma_closure_is_fixed_point(once, initial, files, components_dir);
            lemma_closure_unique(second->Ok_0@, once, once, files, components_dir);
        }
    }
}

/// Whether some member of `set` lies under the components directory.
pub fn has_component(set: &PathSet, components_dir: &str) -> (r: bool)
    requires
        set.wf(),
    ensures
        r == (frontier(set@, components_dir@) != Set::<Seq<char>>::empty()),
{
    let dir: Vec<char> = chars_of(components_dir);
    let count: usize = set.len();
    let mut i: usize = 0;
    proof {
        set.lemma_view_is_order();
    }
    while i < count
        invariant
            i <= count,
            count == set.order().len(),
            dir@ == components_dir@,
            forall|k: int| 0 <= k < i ==> !is_component_path(set.order()[k], dir@),
        decreases count - i,
    {
        let path: &String = set.get(i);
        if lies_under(path.as_str(), &dir) {
            proof {
                set.lemma_view_is_order();
                assert(frontier(set@, dir@).contains(path@));
            }
            return true;
        }
        i = i + 1;
    }
    proof {
        set.lemma_view_is_order();
        assert(frontier(set@, dir@) =~= Set::<Seq<char>>::empty());
    }
    false
}

/// All files that must be compiled again after the files in `all_new_files`
/// changed: these files, and every HTML file among `html_files` that uses a
/// changed component through a chain of tags of any length.
///
/// Where no changed file lies under `components_dir`, the changed files come
/// back as they are and nothing is scanned.
pub fn get_all_files_that_need_recompiling(
    html_files: &Vec<HtmlSource>,
    re_start: &str,
    re_end: &str,
    all_new_files: &PathSet,
    components_dir: &str,
) -> (outcome: Result<PathSet, PatternRejected>)
    requires
        all_new_files.wf(),
    ensures
        recompile_outcome(
            outcome,
            source_views(html_files@),
            re_start@,
            re_end@,
            all_new_files@,
            components_dir@,
        ),
        outcome is Ok ==> outcome->Ok_0.wf() && all_new_files@.subset_of(outcome->Ok_0@),
{
    if !has_component(all_new_files, components_dir) {
        return Ok(all_new_files.duplicate());
    }
    match scan_sources(html_files, re_start, re_end) {
        Ok(files) => Ok(close_over(all_new_files, &files, components_dir)),
        Err(e) => Err(e),
    }
}

} // verus!
