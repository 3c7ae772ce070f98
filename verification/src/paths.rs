//! Paths as text: how deep a file lies, and the way from it back to the root.
//!
//! A path is read as segments separated by `/`. Empty segments and the
//! segments `.` and `..` name no directory or file of their own and are not
//! counted.

use crate::text::{chars_of, contains, occurs, replace_all, replaced, string_of};
use vstd::prelude::*;

verus! {

/// The segments of `path`: the pieces between its `/` characters, of which
/// there is one more than there are `/`.
pub open spec fn segments(path: Seq<char>) -> Seq<Seq<char>>
    decreases path.len(),
{
    if path.len() == 0 {
        seq![Seq::<char>::empty()]
    } else {
        let before: Seq<Seq<char>> = segments(path.drop_last());
        if path.last() == '/' {
            before.push(Seq::<char>::empty())
        } else {
            before.drop_last().push(before.last().push(path.last()))
        }
    }
}

/// A segment that names a directory or a file: not empty, not `.`, not `..`.
pub open spec fn is_normal_segment(segment: Seq<char>) -> bool {
    &&& segment.len() > 0
    &&& segment != seq!['.']
    &&& segment != seq!['.', '.']
}

/// How many of `segs` are normal segments.
pub open spec fn normal_among(segs: Seq<Seq<char>>) -> nat
    decreases segs.len(),
{
    if segs.len() == 0 {
        0
    } else {
        normal_among(segs.drop_last()) + if is_normal_segment(segs.last()) {
            1nat
        } else {
            0nat
        }
    }
}

/// The number of normal segments of `path`.
pub open spec fn normal_segments(path: Seq<char>) -> nat {
    normal_among(segments(path))
}

/// `../` written `n` times.
pub open spec fn parent_steps(n: nat) -> Seq<char>
    decreases n,
{
    if n == 0 {
        Seq::<char>::empty()
    } else {
        parent_steps((n - 1) as nat) + seq!['.', '.', '/']
    }
}

/// The relative way from a file at `path` to the root of the tree it lies in:
/// one `../` for each normal segment of the path beyond the first two.
pub open spec fn relative_path(path: Seq<char>) -> Seq<char> {
    if normal_segments(path) <= 2 {
        Seq::<char>::empty()
    } else {
        parent_steps((normal_segments(path) - 2) as nat)
    }
}

/// Every character of `segment` is a dot.
spec fn all_dots(segment: Seq<char>) -> bool {
    forall|k: int| 0 <= k < segment.len() ==> segment[k] == '.'
}

proof fn lemma_dots_normal(segment: Seq<char>)
    ensures
        is_normal_segment(segment) == (segment.len() > 0 && !(all_dots(segment) && segment.len()
            <= 2)),
{
    if segment.len() == 1 && all_dots(segment) {
        assert(segment == seq!['.']);
    }
    if segment.len() == 2 && all_dots(segment) {
        assert(segment == seq!['.', '.']);
    }
    if segment == seq!['.'] {
        assert(all_dots(segment));
    }
    if segment == seq!['.', '.'] {
        assert(all_dots(segment));
    }
}

proof fn lemma_dots_grow(segment: Seq<char>, c: char)
    ensures
        all_dots(segment.push(c)) == (all_dots(segment) && c == '.'),
{
    let grown: Seq<char> = segment.push(c);
    if all_dots(grown) {
        assert(grown[segment.len() as int] == '.');
        assert forall|k: int| 0 <= k < segment.len() implies segment[k] == '.' by {
            assert(grown[k] == '.');
        }
    }
}

proof fn lemma_segments_nonempty(path: Seq<char>)
    ensures
        segments(path).len() >= 1,
        segments(path).len() <= path.len() + 1,
    decreases path.len(),
{
    if path.len() > 0 {
        lemma_segments_nonempty(path.drop_last());
    }
}

/// Counts the normal segments of `path`.
pub fn count_normal_segments(path: &Vec<char>) -> (count: usize)
    ensures
        count == normal_segments(path@),
{
    let mut count: usize = 0;
    let mut current_len: usize = 0;
    let mut only_dots: bool = true;
    let mut i: usize = 0;
    while i < path.len()
        invariant
            i <= path.len(),
            count == normal_among(segments(path@.take(i as int)).drop_last()),
            count + current_len <= i,
            current_len == segments(path@.take(i as int)).last().len(),
            only_dots == all_dots(segments(path@.take(i as int)).last()),
        decreases path.len() - i,
    {
        let ghost before: Seq<Seq<char>> = segments(path@.take(i as int));
        let ghost after: Seq<Seq<char>> = segments(path@.take(i + 1));
        proof {
            lemma_segments_nonempty(path@.take(i as int));
            assert(path@.take(i + 1).drop_last() == path@.take(i as int));
        }
        if path[i] == '/' {
            proof {
                assert(after.drop_last() == before);
                lemma_dots_normal(before.last());
            }
            if current_len > 0 && !(only_dots && current_len <= 2) {
                count = count + 1;
            }
            current_len = 0;
            only_dots = true;
        } else {
            proof {
                assert(after.drop_last() == before.drop_last());
                lemma_dots_grow(before.last(), path@[i as int]);
            }
            if path[i] != '.' {
                only_dots = false;
            }
            current_len = current_len + 1;
        }
        i = i + 1;
    }
    proof {
        assert(path@.take(i as int) == path@);
        let all: Seq<Seq<char>> = segments(path@);
        lemma_segments_nonempty(path@);
        lemma_dots_normal(all.last());
    }
    if current_len > 0 && !(only_dots && current_len <= 2) {
        count = count + 1;
    }
    count
}

/// The relative way from a file at `filepath` to the root of its tree, as
/// that many `../`: none for a path of one or two normal segments, one for
/// each segment beyond the second.
pub fn get_relative_path(filepath: &str) -> (way: String)
    ensures
        way@ == relative_path(filepath@),
{
    let path: Vec<char> = chars_of(filepath);
    let count: usize = count_normal_segments(&path);
    let mut out: Vec<char> = Vec::new();
    if count > 2 {
        let steps: usize = count - 2;
        let mut done: usize = 0;
        while done < steps
            invariant
                done <= steps,
                out@ == parent_steps(done as nat),
            decreases steps - done,
        {
            out.push('.');
            out.push('.');
            out.push('/');
            done = done + 1;
        }
    }
    string_of(&out)
}

/// What becomes of `content` when the root placeholder is resolved for the
/// file at `target`: where `search_text` stands nowhere in it the content
/// stays as it is, else every `root_placeholder` followed by `/` gives way to
/// the relative path from `target` to the root.
pub open spec fn root_resolved(
    content: Seq<char>,
    search_text: Seq<char>,
    root_placeholder: Seq<char>,
    target: Seq<char>,
) -> Seq<char> {
    if occurs(content, search_text) {
        replaced(content, root_placeholder.push('/'), relative_path(target))
    } else {
        content
    }
}

/// Resolves the root placeholder in the content of the file at
/// `target_file`. The content is only touched where it holds `search_text`;
/// then each `root_placeholder` with the `/` behind it is replaced by the
/// relative path from the file to the root.
pub fn replace_root_placeholder_with_relative_path_new(
    content: &str,
    search_text: &str,
    root_placeholder: &str,
    target_file: &str,
) -> (out: String)
    ensures
        out@ == root_resolved(content@, search_text@, root_placeholder@, target_file@),
{
    let text: Vec<char> = chars_of(content);
    let wanted: Vec<char> = chars_of(search_text);
    if !contains(&text, &wanted) {
        return string_of(&text);
    }
    let mut marker: Vec<char> = chars_of(root_placeholder);
    marker.push('/');
    let way: String = get_relative_path(target_file);
    let way_chars: Vec<char> = chars_of(way.as_str());
    let replaced_text: Vec<char> = replace_all(&text, &marker, &way_chars);
    string_of(&replaced_text)
}

} // verus!
