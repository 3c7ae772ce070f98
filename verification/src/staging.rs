//! Staging: where a source file goes in the output tree, under which name
//! its compiled form will stand, and what kind of source it is.

use crate::path_set::{texts, PathSet};
use crate::pattern::{first_replaced, replace_first};
use crate::text::{
    chars_of, has_prefix, push_all, push_range, same_text, slice_of, starts_with, string_of, trim,
    trimmed,
};
use vstd::prelude::*;

verus! {

/// The kinds of source files that the build tells apart.
#[derive(Debug, Clone, Copy, PartialEq, Eq, Structural)]
pub enum SourceKind {
    Html,
    Scss,
    Ts,
    Other,
}

/// Why a file could not be staged.
#[derive(Debug, Clone, Copy, PartialEq, Eq, Structural)]
pub enum StagingError {
    /// The file does not lie under the source directory.
    NotUnderSourceDir,
    /// The pattern for the page folders was not accepted as a regular
    /// expression.
    PatternRejected,
}

/// A source file with its places in the output tree.
#[derive(Debug, Clone, PartialEq, Eq)]
pub struct StagedFile {
    /// The path of the source file.
    pub source: String,
    /// Where the copy of the source goes.
    pub uncompiled: String,
    /// Where the compiled file will stand.
    pub destination: String,
    pub kind: SourceKind,
}

/// What the contracts say of a `StagedFile`.
pub struct StagedView {
    pub source: Seq<char>,
    pub uncompiled: Seq<char>,
    pub destination: Seq<char>,
    pub kind: SourceKind,
}

impl View for StagedFile {
    type V = StagedView;

    open spec fn view(&self) -> StagedView {
        StagedView {
            source: self.source@,
            uncompiled: self.uncompiled@,
            destination: self.destination@,
            kind: self.kind,
        }
    }
}

/// The views of a sequence of staged files.
pub open spec fn staged_views(files: Seq<StagedFile>) -> Seq<StagedView> {
    Seq::new(files.len(), |i: int| files[i]@)
}

/// `path` names a file with the extension `ext`: it ends with a dot and
/// `ext`, and before the dot stands a name of at least one character.
pub open spec fn has_extension(path: Seq<char>, ext: Seq<char>) -> bool {
    let dot: int = path.len() - ext.len() - 1;
    &&& dot >= 1
    &&& path[dot] == '.'
    &&& path.skip(dot + 1) == ext
    &&& path[dot - 1] != '/'
}

/// The kind of the source file at `path`, by its extension.
pub open spec fn kind_of(path: Seq<char>) -> SourceKind {
    if has_extension(path, "html"@) {
        SourceKind::Html
    } else if has_extension(path, "scss"@) {
        SourceKind::Scss
    } else if has_extension(path, "ts"@) {
        SourceKind::Ts
    } else {
        SourceKind::Other
    }
}

/// The name under which the compiled form of `path` stands: `.ts` becomes
/// `.js`, `.scss` becomes `.css`, every other name stays.
pub open spec fn compiled_name(path: Seq<char>) -> Seq<char> {
    match kind_of(path) {
        SourceKind::Ts => path.take(path.len() - 2) + "js"@,
        SourceKind::Scss => path.take(path.len() - 4) + "css"@,
        _ => path,
    }
}

/// `path` relative to the directory `dir`, where it lies in it: what stands
/// behind `dir` and a `/`. The directory itself gives the empty path.
pub open spec fn relative_to(path: Seq<char>, dir: Seq<char>) -> Option<Seq<char>> {
    if path == dir {
        Some(Seq::<char>::empty())
    } else if starts_with(path, dir.push('/')) {
        Some(path.skip((dir.len() + 1) as int))
    } else {
        None
    }
}

/// The regular expression for the folder that groups the files of one page.
pub open spec fn page_folder_pattern() -> Seq<char> {
    "pages/[^/]+/"@
}

/// The path `rest` under the directory `dir`.
pub open spec fn under(dir: Seq<char>, rest: Seq<char>) -> Seq<char> {
    dir.push('/') + rest
}

/// The places in the output tree of the source file at `source`, whose path
/// relative to the output directory is `flat`: the copy goes there as it is,
/// the compiled file under its compiled name.
pub open spec fn placed(source: Seq<char>, flat: Seq<char>, output_dir: Seq<char>) -> StagedView {
    StagedView {
        source,
        uncompiled: under(output_dir, flat),
        destination: under(output_dir, compiled_name(flat)),
        kind: kind_of(flat),
    }
}

/// How the file at `path` is staged. A path of white space only is passed
/// over. Else the path is taken relative to the source directory, the first
/// page folder is taken out of it, and what is left is put under the output
/// directory: as it is for the copy, with the compiled name for the
/// destination.
pub open spec fn staged(path: Seq<char>, source_dir: Seq<char>, output_dir: Seq<char>) -> Result<
    Option<StagedView>,
    StagingError,
> {
    if trimmed(path).len() == 0 {
        Ok(None)
    } else {
        match relative_to(path, source_dir) {
            None => Err(StagingError::NotUnderSourceDir),
            Some(relative) => match first_replaced(
                page_folder_pattern(),
                relative,
                Seq::<char>::empty(),
            ) {
                None => Err(StagingError::PatternRejected),
                Some(flat) => Ok(Some(placed(path, flat, output_dir))),
            },
        }
    }
}

/// Whether `path` names a file with the extension `ext`.
pub fn ends_with_extension(path: &Vec<char>, ext: &str) -> (r: bool)
    ensures
        r == has_extension(path@, ext@),
{
    let wanted: Vec<char> = chars_of(ext);
    if path.len() < wanted.len() || path.len() - wanted.len() < 2 {
        return false;
    }
    let dot: usize = path.len() - wanted.len() - 1;
    if path[dot] != '.' || path[dot - 1] == '/' {
        return false;
    }
    let tail: Vec<char> = slice_of(path, dot + 1, path.len());
    same_text(&tail, &wanted)
}

/// The kind of the source file at `path`.
pub fn source_kind(path: &Vec<char>) -> (kind: SourceKind)
    ensures
        kind == kind_of(path@),
{
    if ends_with_extension(path, "html") {
        SourceKind::Html
    } else if ends_with_extension(path, "scss") {
        SourceKind::Scss
    } else if ends_with_extension(path, "ts") {
        SourceKind::Ts
    } else {
        SourceKind::Other
    }
}

/// The name under which the compiled form of `path` stands.
pub fn compiled_name_of(path: &Vec<char>) -> (out: Vec<char>)
    ensures
        out@ == compiled_name(path@),
{
    let mut out: Vec<char> = Vec::new();
    match source_kind(path) {
        SourceKind::Ts => {
            proof {
                reveal_strlit("ts");
            }
            push_range(&mut out, path, 0, path.len() - 2);
            push_all(&mut out, &chars_of("js"));
        },
        SourceKind::Scss => {
            proof {
                reveal_strlit("scss");
            }
            push_range(&mut out, path, 0, path.len() - 4);
            push_all(&mut out, &chars_of("css"));
        },
        _ => {
            push_all(&mut out, path);
        },
    }
    out
}

/// `path` relative to the directory `dir`, where it lies in it.
pub fn relative_path_in(path: &Vec<char>, dir: &Vec<char>) -> (rest: Option<Vec<char>>)
    ensures
        match relative_to(path@, dir@) {
            Some(r) => rest is Some && rest->Some_0@ == r,
            None => rest is None,
        },
{
    if same_text(path, dir) {
        return Some(Vec::new());
    }
    let mut prefix: Vec<char> = Vec::new();
    push_all(&mut prefix, dir);
    prefix.push('/');
    if has_prefix(path, &prefix) {
        assert(path@.skip(dir.len() + 1) == path@.subrange(dir.len() + 1, path.len() as int));
        Some(slice_of(path, dir.len() + 1, path.len()))
    } else {
        None
    }
}

/// The path `rest` under the directory `dir`.
pub fn path_under(dir: &Vec<char>, rest: &Vec<char>) -> (out: String)
    ensures
        out@ == under(dir@, rest@),
{
    let mut out: Vec<char> = Vec::new();
    push_all(&mut out, dir);
    out.push('/');
    push_all(&mut out, rest);
    string_of(&out)
}

/// The places in the output tree of the source file at `source_path`, whose
/// path relative to the output directory is `flat`.
pub fn place_in_output(source_path: &str, flat: &str, output_dir: &str) -> (file: StagedFile)
    ensures
        file@ == placed(source_path@, flat@, output_dir@),
{
    let to: Vec<char> = chars_of(output_dir);
    let flat_chars: Vec<char> = chars_of(flat);
    let compiled: Vec<char> = compiled_name_of(&flat_chars);
    StagedFile {
        source: source_path.to_owned(),
        uncompiled: path_under(&to, &flat_chars),
        destination: path_under(&to, &compiled),
        kind: source_kind(&flat_chars),
    }
}

/// What `stage_file` owes for the outcome that the contract names.
pub open spec fn staging_outcome(
    result: Result<Option<StagedFile>, StagingError>,
    owed: Result<Option<StagedView>, StagingError>,
) -> bool {
    match owed {
        Ok(Some(view)) => result is Ok && result->Ok_0 is Some && result->Ok_0->Some_0@ == view,
        Ok(None) => result is Ok && result->Ok_0 is None,
        Err(e) => result is Err && result->Err_0 == e,
    }
}

/// Says where the source file at `source_path` goes in the output tree.
///
/// The path is taken relative to `source_dir`, and the first folder of the
/// form `pages/<name>/` is taken out of it. The copy of the source goes
/// under `output_dir` with the name it has; the compiled file will stand
/// beside it with `.js` for `.ts` and `.css` for `.scss`. A path of white
/// space only gives `None`.
pub fn stage_file(source_path: &str, source_dir: &str, output_dir: &str) -> (result: Result<
    Option<StagedFile>,
    StagingError,
>)
    ensures
        staging_outcome(result, staged(source_path@, source_dir@, output_dir@)),
{
    let path: Vec<char> = chars_of(source_path);
    if trim(&path).len() == 0 {
        return Ok(None);
    }
    let from: Vec<char> = chars_of(source_dir);
    let relative: Vec<char> = match relative_path_in(&path, &from) {
        Some(r) => r,
        None => {
            return Err(StagingError::NotUnderSourceDir);
        },
    };
    let relative_text: String = string_of(&relative);
    proof {
        reveal_strlit("");
        assert(""@ == Seq::<char>::empty());
    }
    match replace_first("pages/[^/]+/", relative_text.as_str(), "") {
        Err(_) => Err(StagingError::PatternRejected),
        Ok(flat) => Ok(Some(place_in_output(source_path, flat.as_str(), output_dir))),
    }
}

/// What is to be done for a set of source files: where each one goes, and
/// which compiled scripts and stylesheets will come of them.
#[derive(Debug, Clone, PartialEq, Eq)]
pub struct StagingPlan {
    /// The files to stage, in the order of the set.
    pub files: Vec<StagedFile>,
    /// The destinations of the script sources among them.
    pub scripts: Vec<String>,
    /// The destinations of the style sources among them.
    pub styles: Vec<String>,
}

/// What the contracts say of a `StagingPlan`.
pub struct PlanView {
    pub files: Seq<StagedView>,
    pub scripts: Seq<Seq<char>>,
    pub styles: Seq<Seq<char>>,
}

impl View for StagingPlan {
    type V = PlanView;

    open spec fn view(&self) -> PlanView {
        PlanView {
            files: staged_views(self.files@),
            scripts: texts(self.scripts@),
            styles: texts(self.styles@),
        }
    }
}

/// `plan` with one more staged file.
pub open spec fn with_staged(plan: PlanView, file: StagedView) -> PlanView {
    PlanView {
        files: plan.files.push(file),
        scripts: if file.kind == SourceKind::Ts {
            plan.scripts.push(file.destination)
        } else {
            plan.scripts
        },
        styles: if file.kind == SourceKind::Scss {
            plan.styles.push(file.destination)
        } else {
            plan.styles
        },
    }
}

/// The plan for the files at `paths`, taken in their order. The first file
/// that cannot be staged is the error of the whole.
pub open spec fn planned(paths: Seq<Seq<char>>, source_dir: Seq<char>, output_dir: Seq<char>)
    -> Result<PlanView, StagingError>
    decreases paths.len(),
{
    if paths.len() == 0 {
        Ok(
            PlanView {
                files: Seq::<StagedView>::empty(),
                scripts: Seq::<Seq<char>>::empty(),
                styles: Seq::<Seq<char>>::empty(),
            },
        )
    } else {
        match planned(paths.drop_last(), source_dir, output_dir) {
            Err(e) => Err(e),
            Ok(plan) => match staged(paths.last(), source_dir, output_dir) {
                Err(e) => Err(e),
                Ok(None) => Ok(plan),
                Ok(Some(file)) => Ok(with_staged(plan, file)),
            },
        }
    }
}

/// A plan that fails for the first files fails as a whole, in the same way.
proof fn lemma_plan_failure_stays(
    paths: Seq<Seq<char>>,
    n: int,
    source_dir: Seq<char>,
    output_dir: Seq<char>,
)
    requires
        0 <= n <= paths.len(),
        planned(paths.take(n), source_dir, output_dir) is Err,
    ensures
        planned(paths, source_dir, output_dir) == planned(paths.take(n), source_dir, output_dir),
    decreases paths.len() - n,
{
    if n < paths.len() {
        assert(paths.take(n + 1).drop_last() == paths.take(n));
        lemma_plan_failure_stays(paths, n + 1, source_dir, output_dir);
    } else {
        assert(paths.take(n) == paths);
    }
}

/// What `compile_all` owes for the outcome that the contract names.
pub open spec fn plan_outcome(
    result: Result<StagingPlan, StagingError>,
    owed: Result<PlanView, StagingError>,
) -> bool {
    match owed {
        Ok(plan) => result is Ok && result->Ok_0@ == plan,
        Err(e) => result is Err && result->Err_0 == e,
    }
}

/// Prepares the compilation of `source_files`: says for each file where its
/// copy goes and where its compiled form will stand, and lists the
/// destinations of the scripts and of the stylesheets that the compilers are
/// to make. The files are taken in the order of the set.
pub fn compile_all(source_files: &PathSet, source_dir: &str, output_dir: &str) -> (result: Result<
    StagingPlan,
    StagingError,
>)
    requires
        source_files.wf(),
    ensures
        plan_outcome(result, planned(source_files.order(), source_dir@, output_dir@)),
{
    let mut plan = StagingPlan { files: Vec::new(), scripts: Vec::new(), styles: Vec::new() };
    let count: usize = source_files.len();
    let ghost paths: Seq<Seq<char>> = source_files.order();
    let mut i: usize = 0;
    assert(plan@.files == Seq::<StagedView>::empty());
    assert(plan@.styles == Seq::<Seq<char>>::empty());
    while i < count
        invariant
            i <= count,
            count == paths.len(),
            paths == source_files.order(),
            planned(paths.take(i as int), source_dir@, output_dir@) == Ok::<
                PlanView,
                StagingError,
            >(plan@),
        decreases count - i,
    {
        let path: &String = source_files.get(i);
        assert(paths.take(i + 1).drop_last() == paths.take(i as int));
        match stage_file(path.as_str(), source_dir, output_dir) {
            Err(e) => {
                proof {
                    lemma_plan_failure_stays(paths, i + 1, source_dir@, output_dir@);
                }
                return Err(e);
            },
            Ok(None) => {},
            Ok(Some(file)) => {
                let ghost before: PlanView = plan@;
                match file.kind {
                    SourceKind::Ts => {
                        plan.scripts.push(file.destination.clone());
                        assert(plan@.scripts == before.scripts.push(file@.destination));
                    },
                    SourceKind::Scss => {
                        plan.styles.push(file.destination.clone());
                        assert(plan@.styles == before.styles.push(file@.destination));
                    },
                    _ => {},
                }
                plan.files.push(file);
                assert(plan@.files == before.files.push(file@));
            },
        }
        i = i + 1;
    }
    assert(paths.take(i as int) == paths);
    Ok(plan)
}

} // verus!
