//! The decisions of the build pipeline: which files are candidates, in what
//! order they are taken, and what the last successful build left behind.

use crate::marker::{build_threshold, last_compile_time};
use crate::path_set::{texts, PathSet};
use crate::pattern::{every_replaced, replace_every, PatternRejected};
use crate::rebuild::{
    get_all_files_that_need_recompiling, recompile_outcome, source_views, HtmlSource,
};
use crate::text::{chars_of, lines, lines_of, string_of, trim, trimmed, vec_texts};
use vstd::prelude::*;

verus! {

/// A file of the source tree with the time of its last change, in
/// milliseconds since the epoch.
#[derive(Debug, Clone, PartialEq, Eq)]
pub struct SourceFile {
    pub path: String,
    pub modified: u64,
}

/// The paths among `files[..n]` that were changed after `threshold`.
pub open spec fn newer_paths(files: Seq<SourceFile>, threshold: u64, n: int) -> Seq<Seq<char>>
    decreases n,
{
    if n <= 0 {
        Seq::<Seq<char>>::empty()
    } else if files[n - 1].modified > threshold {
        newer_paths(files, threshold, n - 1).push(files[n - 1].path@)
    } else {
        newer_paths(files, threshold, n - 1)
    }
}

/// The paths of the files that were changed after `last_compile_time`, in
/// the order of `all_files`. A file changed at that very time is not among
/// them.
pub fn only_modify_time_newer_than_last_compile_time(
    all_files: &Vec<SourceFile>,
    last_compile_time: u64,
) -> (newer: Vec<String>)
    ensures
        texts(newer@) == newer_paths(all_files@, last_compile_time, all_files@.len() as int),
{
    let mut newer: Vec<String> = Vec::new();
    let mut i: usize = 0;
    while i < all_files.len()
        invariant
            i <= all_files.len(),
            texts(newer@) == newer_paths(all_files@, last_compile_time, i as int),
        decreases all_files.len() - i,
    {
        if all_files[i].modified > last_compile_time {
            newer.push(all_files[i].path.clone());
        }
        i = i + 1;
    }
    newer
}

/// The files of `all_modified_files` that are not among
/// `compiled_components`, in the order in which `all_modified_files` holds
/// them.
pub fn get_non_prioritised_files_list(
    all_modified_files: &PathSet,
    compiled_components: &PathSet,
) -> (rest: PathSet)
    requires
        all_modified_files.wf(),
    ensures
        rest.wf(),
        rest@ == all_modified_files@.difference(compiled_components@),
        rest.order() == chosen(
            all_modified_files.order(),
            all_modified_files@.difference(compiled_components@),
        ),
{
    let mut rest: PathSet = PathSet::new();
    let count: usize = all_modified_files.len();
    let ghost all: Seq<Seq<char>> = all_modified_files.order();
    let ghost wanted: Set<Seq<char>> = all_modified_files@.difference(compiled_components@);
    let mut i: usize = 0;
    proof {
        all_modified_files.lemma_view_is_order();
        assert(all.take(0) == Seq::<Seq<char>>::empty());
    }
    while i < count
        invariant
            i <= count,
            count == all.len(),
            all == all_modified_files.order(),
            all.no_duplicates(),
            wanted == all_modified_files@.difference(compiled_components@),
            forall|p: Seq<char>| all_modified_files@.contains(p) <==> all.contains(p),
            rest.wf(),
            rest.order() == chosen(all.take(i as int), wanted),
            forall|p: Seq<char>| rest@.contains(p) ==> all.take(i as int).contains(p),
        decreases count - i,
    {
        let path: &String = all_modified_files.get(i);
        proof {
            let done: Seq<Seq<char>> = all.take(i as int);
            assert(all.take(i + 1) == done.push(path@));
            assert(all.take(i + 1).drop_last() == done);
            assert(all.contains(path@));
            assert forall|p: Seq<char>| done.push(path@).contains(p) <==> done.contains(p) || p
                == path@ by {
                vstd::seq_lib::lemma_seq_contains_after_push(done, path@, p);
            }
            if done.contains(path@) {
                let k: int = choose|k: int| 0 <= k < done.len() && done[k] == path@;
                assert(all[k] == all[i as int]);
            }
        }
        if !compiled_components.contains(path.as_str()) {
            rest.insert(path.clone());
        }
        i = i + 1;
    }
    proof {
        assert(all.take(i as int) == all);
        lemma_chosen_members(all, wanted);
        rest.lemma_view_is_order();
        assert(rest@ =~= wanted);
    }
    rest
}

/// What `chosen` keeps are the members of `set` among `files`.
pub proof fn lemma_chosen_members(files: Seq<Seq<char>>, set: Set<Seq<char>>)
    ensures
        forall|p: Seq<char>| chosen(files, set).contains(p) <==> files.contains(p) && set.contains(p),
    decreases files.len(),
{
    if files.len() > 0 {
        let rest: Seq<Seq<char>> = files.drop_last();
        lemma_chosen_members(rest, set);
        assert(files == rest.push(files.last()));
        assert forall|p: Seq<char>| chosen(files, set).contains(p) <==> files.contains(p)
            && set.contains(p) by {
            vstd::seq_lib::lemma_seq_contains_after_push(rest, files.last(), p);
            vstd::seq_lib::lemma_seq_contains_after_push(chosen(rest, set), files.last(), p);
        }
    }
}

/// The files found in the directory of a component of the priority list;
/// `None` where the component has no directory.
#[derive(Debug, Clone, PartialEq, Eq)]
pub struct ComponentFiles {
    pub component: String,
    pub files: Option<Vec<String>>,
}

/// The members of `set` among `files`, in the order of `files`.
pub open spec fn chosen(files: Seq<Seq<char>>, set: Set<Seq<char>>) -> Seq<Seq<char>>
    decreases files.len(),
{
    if files.len() == 0 {
        Seq::<Seq<char>>::empty()
    } else if set.contains(files.last()) {
        chosen(files.drop_last(), set).push(files.last())
    } else {
        chosen(files.drop_last(), set)
    }
}

/// The files of one component's directory as texts; none where the
/// directory is missing.
pub open spec fn listed_files(listing: ComponentFiles) -> Seq<Seq<char>> {
    match listing.files {
        Some(files) => texts(files@),
        None => Seq::<Seq<char>>::empty(),
    }
}

/// The files to compile first: for each component of the priority list in
/// turn, the files of its directory that are in `set`.
pub open spec fn prioritised(listings: Seq<ComponentFiles>, set: Set<Seq<char>>) -> Seq<Seq<char>>
    decreases listings.len(),
{
    if listings.len() == 0 {
        Seq::<Seq<char>>::empty()
    } else {
        prioritised(listings.drop_last(), set) + chosen(listed_files(listings.last()), set)
    }
}

/// Appends to `out` the members of `set` among `files`.
fn push_chosen(out: &mut Vec<String>, files: &Vec<String>, set: &PathSet)
    ensures
        texts(final(out)@) == texts(old(out)@) + chosen(texts(files@), set@),
{
    let ghost start: Seq<Seq<char>> = texts(out@);
    let ghost all: Seq<Seq<char>> = texts(files@);
    let mut i: usize = 0;
    while i < files.len()
        invariant
            i <= files.len(),
            all == texts(files@),
            texts(out@) == start + chosen(all.take(i as int), set@),
        decreases files.len() - i,
    {
        assert(all.take(i + 1).drop_last() == all.take(i as int));
        if set.contains(files[i].as_str()) {
            out.push(files[i].clone());
            assert(start + chosen(all.take(i as int), set@).push(files@[i as int]@) == (start
                + chosen(all.take(i as int), set@)).push(files@[i as int]@));
        }
        i = i + 1;
    }
    assert(all.take(i as int) == all);
}

/// The files that are compiled before all others, in their order: the
/// components of the priority list are taken in the order of the list, and
/// of each one's directory the files that need compiling. A component
/// without a directory gives none.
pub fn prioritised_files(listings: &Vec<ComponentFiles>, to_compile: &PathSet) -> (first: Vec<
    String,
>)
    ensures
        texts(first@) == prioritised(listings@, to_compile@),
{
    let mut first: Vec<String> = Vec::new();
    let mut i: usize = 0;
    while i < listings.len()
        invariant
            i <= listings.len(),
            texts(first@) == prioritised(listings@.take(i as int), to_compile@),
        decreases listings.len() - i,
    {
        assert(listings@.take(i + 1).drop_last() == listings@.take(i as int));
        match &listings[i].files {
            Some(files) => {
                push_chosen(&mut first, files, to_compile);
            },
            None => {
            },
        }
        i = i + 1;
    }
    assert(listings@.take(i as int) == listings@);
    first
}

/// A line of the priority list names a component that has no directory.
#[derive(Debug, Clone, PartialEq, Eq)]
pub struct InvalidPriorityListEntry {
    pub entry: String,
}

/// The components that the lines of a priority list name, in their order.
/// Each line is taken without the white space at its ends; empty lines and
/// lines that begin with `#` are passed over. The first line that names no
/// member of `valid` makes the whole list invalid and is the error.
pub open spec fn listed_components(list: Seq<Seq<char>>, valid: Set<Seq<char>>) -> Result<
    Seq<Seq<char>>,
    Seq<char>,
>
    decreases list.len(),
{
    if list.len() == 0 {
        Ok(Seq::<Seq<char>>::empty())
    } else {
        match listed_components(list.drop_last(), valid) {
            Err(bad) => Err(bad),
            Ok(names) => {
                let entry: Seq<char> = trimmed(list.last());
                if entry.len() == 0 || entry[0] == '#' {
                    Ok(names)
                } else if valid.contains(entry) {
                    Ok(names.push(entry))
                } else {
                    Err(entry)
                }
            },
        }
    }
}

/// Reads the priority list: the components that are compiled first, one to
/// a line, in the order in which they are to be taken. Every entry must name
/// a member of `valid_dirs`; the first that does not is the error.
pub fn load_components_list(file_content: &str, valid_dirs: &PathSet) -> (r: Result<
    Vec<String>,
    InvalidPriorityListEntry,
>)
    ensures
        match listed_components(lines(file_content@), valid_dirs@) {
            Ok(names) => r is Ok && texts(r->Ok_0@) == names,
            Err(bad) => r is Err && r->Err_0.entry@ == bad,
        },
{
    let content: Vec<char> = chars_of(file_content);
    let list: Vec<Vec<char>> = lines_of(&content);
    let ghost all: Seq<Seq<char>> = lines(file_content@);
    let mut names: Vec<String> = Vec::new();
    let mut i: usize = 0;
    assert(texts(names@) == Seq::<Seq<char>>::empty());
    while i < list.len()
        invariant
            i <= list.len(),
            all == vec_texts(list@),
            all == lines(file_content@),
            listed_components(all.take(i as int), valid_dirs@) == Ok::<
                Seq<Seq<char>>,
                Seq<char>,
            >(texts(names@)),
        decreases list.len() - i,
    {
        assert(all.take(i + 1).drop_last() == all.take(i as int));
        let entry: Vec<char> = trim(&list[i]);
        if entry.len() > 0 && entry[0] != '#' {
            let name: String = string_of(&entry);
            if valid_dirs.contains(name.as_str()) {
                let ghost before: Seq<Seq<char>> = texts(names@);
                names.push(name);
                assert(texts(names@) == before.push(entry@));
            } else {
                proof {
                    lemma_invalid_entry_stays(all, i + 1, valid_dirs@);
                }
                return Err(InvalidPriorityListEntry { entry: name });
            }
        }
        i = i + 1;
    }
    assert(all.take(i as int) == all);
    Ok(names)
}

/// A list that is invalid up to some line is invalid as a whole, for the
/// same entry.
proof fn lemma_invalid_entry_stays(list: Seq<Seq<char>>, n: int, valid: Set<Seq<char>>)
    requires
        0 <= n <= list.len(),
        listed_components(list.take(n), valid) is Err,
    ensures
        listed_components(list, valid) == listed_components(list.take(n), valid),
    decreases list.len() - n,
{
    if n < list.len() {
        assert(list.take(n + 1).drop_last() == list.take(n));
        lemma_invalid_entry_stays(list, n + 1, valid);
    } else {
        assert(list.take(n) == list);
    }
}

/// The paths that a listing of the source directory names: its lines.
pub fn files_in_source_dir(listing: &str) -> (files: Vec<String>)
    ensures
        texts(files@) == lines(listing@),
{
    let content: Vec<char> = chars_of(listing);
    let list: Vec<Vec<char>> = lines_of(&content);
    let mut files: Vec<String> = Vec::new();
    let mut i: usize = 0;
    while i < list.len()
        invariant
            i <= list.len(),
            files@.len() == i,
            forall|k: int| 0 <= k < i ==> files@[k]@ == list@[k]@,
        decreases list.len() - i,
    {
        files.push(string_of(&list[i]));
        i = i + 1;
    }
    files
}

/// The regular expression that finds a link to an HTML file: an anchor
/// tag up to the quote of its `href`, the target, the suffix `.html`, and the
/// rest of the tag from the closing quote on.
pub open spec fn link_pattern() -> Seq<char> {
    "(<a[^>]*\\s+href\\s*=\\s*[\"'])([^\"']*)(\\.html)([\"'][^>]*>)"@
}

/// What a link is replaced by: the link without the suffix.
pub open spec fn link_without_suffix() -> Seq<char> {
    "$1$2$4"@
}

/// Takes the suffix `.html` off the targets of the links in `content`, for
/// hosts that serve a page under its bare name. Only the `href` of anchor
/// tags is touched. Fails where the pattern of the links is not accepted.
pub fn strip_html_suffix_from_links(content: &str) -> (r: Result<String, PatternRejected>)
    ensures
        match every_replaced(link_pattern(), content@, link_without_suffix()) {
            Some(out) => r is Ok && r->Ok_0@ == out,
            None => r is Err,
        },
{
    match replace_every(
        "(<a[^>]*\\s+href\\s*=\\s*[\"'])([^\"']*)(\\.html)([\"'][^>]*>)",
        content,
        "$1$2$4",
    ) {
        Ok(out) => Ok(out),
        Err(_) => Err(PatternRejected),
    }
}

/// The time from which on a changed file counts as changed.
pub open spec fn threshold(fresh_run: bool, marker: Option<Seq<char>>) -> u64 {
    if fresh_run {
        0
    } else {
        last_compile_time(marker) as u64
    }
}

/// The files that a build has to compile: the files of `all_files` that
/// were changed since the last build, and every HTML file that uses a
/// changed component through a chain of tags of any length. A fresh build
/// takes every file as changed, whatever the marker says.
pub fn files_to_compile(
    fresh_run: bool,
    marker: Option<&str>,
    all_files: &Vec<SourceFile>,
    html_files: &Vec<HtmlSource>,
    re_start: &str,
    re_end: &str,
    components_dir: &str,
) -> (outcome: Result<PathSet, PatternRejected>)
    ensures
        recompile_outcome(
            outcome,
            source_views(html_files@),
            re_start@,
            re_end@,
            newer_paths(
                all_files@,
                threshold(
                    fresh_run,
                    match marker {
                        Some(content) => Some(content@),
                        None => None,
                    },
                ),
                all_files@.len() as int,
            ).to_set(),
            components_dir@,
        ),
        outcome is Ok ==> outcome->Ok_0.wf(),
{
    let since: u64 = build_threshold(fresh_run, marker);
    let newer: Vec<String> = only_modify_time_newer_than_last_compile_time(all_files, since);
    let changed: PathSet = PathSet::from_paths(&newer);
    get_all_files_that_need_recompiling(html_files, re_start, re_end, &changed, components_dir)
}

/// The order in which the files of a build are compiled.
#[derive(Debug, Clone)]
pub struct CompileOrder {
    /// The files of the components of the priority list, in the order of the
    /// list.
    pub first: Vec<String>,
    /// All other files.
    pub rest: PathSet,
}

/// Puts the files of a build in order: first the files of the components of
/// the priority list that need compiling, then whatever else needs it.
pub fn compile_order(listings: &Vec<ComponentFiles>, to_compile: &PathSet) -> (order: CompileOrder)
    requires
        to_compile.wf(),
    ensures
        texts(order.first@) == prioritised(listings@, to_compile@),
        order.rest.wf(),
        order.rest@ == to_compile@.difference(texts(order.first@).to_set()),
        order.rest.order() == chosen(
            to_compile.order(),
            to_compile@.difference(texts(order.first@).to_set()),
        ),
{
    let first: Vec<String> = prioritised_files(listings, to_compile);
    let compiled: PathSet = PathSet::from_paths(&first);
    let rest: PathSet = get_non_prioritised_files_list(to_compile, &compiled);
    CompileOrder { first, rest }
}

} // verus!
