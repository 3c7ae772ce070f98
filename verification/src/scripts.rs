//! Reusable code snippets in script files: a tag in a script gives way to
//! the text of the snippet it names, and so do the tags that a snippet
//! brings with it, until no tag is left that names a snippet. There are no
//! parameters.

use crate::expand::ExpandError;
use crate::pattern::{
    all_captures, escape, escaped, group_or_empty, group_string, group_texts, match_texts,
    search_all, PatternRejected,
};
use crate::path_set::texts;
use crate::text::{chars_of, replace_all, replaced, string_of};
use vstd::prelude::*;

verus! {

/// A tag found in a script: the tag as it stands in the text, and the name
/// between its tokens.
#[derive(Debug, Clone, PartialEq, Eq)]
pub struct ScriptTag {
    pub full: String,
    pub name: String,
}

/// A snippet of reusable code.
#[derive(Debug, Clone, PartialEq, Eq)]
pub struct Snippet {
    pub name: String,
    pub text: String,
}

/// Tags as the contracts see them: each tag's text with the name in it.
pub type TagTexts = Seq<(Seq<char>, Seq<char>)>;

/// Snippets as the contracts see them: each name with its text.
pub type SnippetTexts = Seq<(Seq<char>, Seq<char>)>;

/// The texts of a sequence of tags.
pub open spec fn tag_texts(tags: Seq<ScriptTag>) -> TagTexts {
    Seq::new(tags.len(), |i: int| (tags[i].full@, tags[i].name@))
}

/// The texts of a sequence of snippets.
pub open spec fn snippet_texts(snippets: Seq<Snippet>) -> SnippetTexts {
    Seq::new(snippets.len(), |i: int| (snippets[i].name@, snippets[i].text@))
}

/// The regular expression that finds the tags of a script: the start token,
/// as few characters of one line as possible, the end token.
pub open spec fn script_pattern(re_start: Seq<char>, re_end: Seq<char>) -> Seq<char> {
    "(?m)"@ + escaped(re_start) + "(.*?)"@ + escaped(re_end)
}

/// The tags that the matches `found` stand for.
pub open spec fn tags_of(found: Seq<Seq<Option<Seq<char>>>>) -> TagTexts {
    Seq::new(found.len(), |i: int| (group_or_empty(found[i], 0), group_or_empty(found[i], 1)))
}

/// The text of the first snippet with the name `name`.
pub open spec fn snippet_named(snippets: SnippetTexts, name: Seq<char>) -> Option<Seq<char>>
    decreases snippets.len(),
{
    if snippets.len() == 0 {
        None
    } else if snippets[0].0 == name {
        Some(snippets[0].1)
    } else {
        snippet_named(snippets.skip(1), name)
    }
}

/// The first of `tags` that names a snippet, with the text of that snippet.
pub open spec fn first_resolvable(tags: TagTexts, snippets: SnippetTexts) -> Option<
    (Seq<char>, Seq<char>),
>
    decreases tags.len(),
{
    if tags.len() == 0 {
        None
    } else {
        match snippet_named(snippets, tags[0].1) {
            Some(body) => Some((tags[0].0, body)),
            None => first_resolvable(tags.skip(1), snippets),
        }
    }
}

/// The names among `tags` for which there is no snippet, in the order of the
/// tags.
pub open spec fn missing_snippets(tags: TagTexts, snippets: SnippetTexts) -> Seq<Seq<char>>
    decreases tags.len(),
{
    if tags.len() == 0 {
        Seq::<Seq<char>>::empty()
    } else if snippet_named(snippets, tags.last().1) is None {
        missing_snippets(tags.drop_last(), snippets).push(tags.last().1)
    } else {
        missing_snippets(tags.drop_last(), snippets)
    }
}

/// What became of a script: its text with the snippets in it, and the names
/// that no snippet was found for.
#[derive(Debug, Clone, PartialEq, Eq)]
pub struct ScriptInclusion {
    pub text: String,
    pub missing: Vec<String>,
}

/// What the contracts say of a `ScriptInclusion`.
pub struct InclusionView {
    pub text: Seq<char>,
    pub missing: Seq<Seq<char>>,
}

impl View for ScriptInclusion {
    type V = InclusionView;

    open spec fn view(&self) -> InclusionView {
        InclusionView { text: self.text@, missing: texts(self.missing@) }
    }
}

/// The outcome of putting the snippets into `text` with at most `steps`
/// tags resolved.
///
/// While the text holds a tag that names a snippet, the first such tag gives
/// way, wherever it stands, to the text of the snippet; what the snippet
/// brings with it is looked at in the next step like the rest of the text.
/// The inclusion ends well when no tag names a snippet; the tags that are
/// left then are reported as missing. It fails when such a tag is left and no
/// step is, as with a snippet that includes itself, or when the tokens give a
/// pattern that is not accepted.
pub open spec fn included(
    text: Seq<char>,
    snippets: SnippetTexts,
    re_start: Seq<char>,
    re_end: Seq<char>,
    steps: nat,
) -> Result<InclusionView, ExpandError>
    decreases steps,
{
    match all_captures(script_pattern(re_start, re_end), text) {
        None => Err(ExpandError::PatternRejected),
        Some(found) => match first_resolvable(tags_of(found), snippets) {
            None => Ok(InclusionView { text, missing: missing_snippets(tags_of(found), snippets) }),
            Some((full, body)) => if steps == 0 {
                Err(ExpandError::ExpansionDepthExceeded)
            } else {
                included(replaced(text, full, body), snippets, re_start, re_end, (steps - 1) as nat)
            },
        },
    }
}

/// A script in which no tag names a snippet is left as it is, however few
/// steps are allowed; its tags are reported as missing.
pub proof fn lemma_script_without_snippets_unchanged(
    text: Seq<char>,
    snippets: SnippetTexts,
    re_start: Seq<char>,
    re_end: Seq<char>,
    steps: nat,
)
    requires
        all_captures(script_pattern(re_start, re_end), text) is Some,
        first_resolvable(
            tags_of(all_captures(script_pattern(re_start, re_end), text)->Some_0),
            snippets,
        ) is None,
    ensures
        included(text, snippets, re_start, re_end, steps) is Ok,
        included(text, snippets, re_start, re_end, steps)->Ok_0.text == text,
{
}

/// What a snippet brings with it is resolved too: the outcome for a script
/// whose first tag with a snippet is `full` is the outcome for the script
/// with that snippet put in, with one step less.
pub proof fn lemma_inclusion_goes_on(
    text: Seq<char>,
    snippets: SnippetTexts,
    re_start: Seq<char>,
    re_end: Seq<char>,
    steps: nat,
    full: Seq<char>,
    body: Seq<char>,
)
    requires
        steps > 0,
        all_captures(script_pattern(re_start, re_end), text) is Some,
        first_resolvable(
            tags_of(all_captures(script_pattern(re_start, re_end), text)->Some_0),
            snippets,
        ) == Some((full, body)),
    ensures
        included(text, snippets, re_start, re_end, steps) == included(
            replaced(text, full, body),
            snippets,
            re_start,
            re_end,
            (steps - 1) as nat,
        ),
{
}

/// The text of the first of `snippets` with the name `name`.
pub fn find_snippet<'a>(snippets: &'a Vec<Snippet>, name: &str) -> (found: Option<&'a String>)
    ensures
        match snippet_named(snippet_texts(snippets@), name@) {
            Some(text) => found is Some && found->Some_0@ == text,
            None => found is None,
        },
{
    let wanted: String = name.to_owned();
    let ghost all: SnippetTexts = snippet_texts(snippets@);
    let mut i: usize = 0;
    assert(all.skip(0) == all);
    while i < snippets.len()
        invariant
            i <= snippets.len(),
            wanted@ == name@,
            all == snippet_texts(snippets@),
            snippet_named(all.skip(i as int), name@) == snippet_named(all, name@),
        decreases snippets.len() - i,
    {
        assert(all.skip(i as int).skip(1) == all.skip(i + 1));
        if snippets[i].name == wanted {
            return Some(&snippets[i].text);
        }
        i = i + 1;
    }
    None
}

/// The tags that the matches `found` stand for.
pub fn tags_in_matches(found: &Vec<Vec<Option<String>>>) -> (tags: Vec<ScriptTag>)
    ensures
        tag_texts(tags@) == tags_of(match_texts(found@)),
{
    let mut tags: Vec<ScriptTag> = Vec::new();
    let ghost all: Seq<Seq<Option<Seq<char>>>> = match_texts(found@);
    let mut i: usize = 0;
    while i < found.len()
        invariant
            i <= found.len(),
            all == match_texts(found@),
            tags@.len() == i,
            forall|k: int| 0 <= k < i ==> tag_texts(tags@)[k] == #[trigger] tags_of(all)[k],
        decreases found.len() - i,
    {
        let full: String = group_string(&found[i], 0);
        let name: String = group_string(&found[i], 1);
        let ghost before: Seq<ScriptTag> = tags@;
        tags.push(ScriptTag { full, name });
        proof {
            assert(all[i as int] == group_texts(found@[i as int]@));
            assert forall|k: int| 0 <= k < i + 1 implies tag_texts(tags@)[k]
                == #[trigger] tags_of(all)[k] by {
                if k < i {
                    assert(tags@[k] == before[k]);
                    assert(tag_texts(before)[k] == tags_of(all)[k]);
                }
            }
        }
        i = i + 1;
    }
    assert(tag_texts(tags@) =~= tags_of(all));
    tags
}

/// The tags of the script `content`, in their order: from `re_start` to the
/// nearest `re_end` on the same line. Fails where the tokens give a pattern
/// that is not accepted as a regular expression.
pub fn script_tags(content: &str, re_start: &str, re_end: &str) -> (r: Result<
    Vec<ScriptTag>,
    PatternRejected,
>)
    ensures
        match all_captures(script_pattern(re_start@, re_end@), content@) {
            Some(found) => r is Ok && tag_texts(r->Ok_0@) == tags_of(found),
            None => r is Err,
        },
{
    let mut pattern: String = "(?m)".to_owned();
    let start: String = escape(re_start);
    let end: String = escape(re_end);
    pattern.append(start.as_str());
    pattern.append("(.*?)");
    pattern.append(end.as_str());
    match search_all(pattern.as_str(), content) {
        Ok(found) => Ok(tags_in_matches(&found)),
        Err(_) => Err(PatternRejected),
    }
}

/// One step of the inclusion: `content` with the first of `tags` that names
/// a snippet replaced, wherever it stands, by the text of that snippet.
/// `None` where no tag names a snippet.
pub fn include_first_snippet(content: &str, tags: &Vec<ScriptTag>, snippets: &Vec<Snippet>) -> (next:
    Option<String>)
    ensures
        match first_resolvable(tag_texts(tags@), snippet_texts(snippets@)) {
            Some((full, body)) => next is Some && next->Some_0@ == replaced(content@, full, body),
            None => next is None,
        },
{
    let ghost all: TagTexts = tag_texts(tags@);
    let ghost bodies: SnippetTexts = snippet_texts(snippets@);
    let mut i: usize = 0;
    assert(all.skip(0) == all);
    while i < tags.len()
        invariant
            i <= tags.len(),
            all == tag_texts(tags@),
            bodies == snippet_texts(snippets@),
            first_resolvable(all.skip(i as int), bodies) == first_resolvable(all, bodies),
        decreases tags.len() - i,
    {
        assert(all.skip(i as int)[0] == all[i as int]);
        assert(all.skip(i as int).skip(1) == all.skip(i + 1));
        match find_snippet(snippets, tags[i].name.as_str()) {
            Some(body) => {
                let text: Vec<char> = chars_of(content);
                let tag: Vec<char> = chars_of(tags[i].full.as_str());
                let with: Vec<char> = chars_of(body.as_str());
                return Some(string_of(&replace_all(&text, &tag, &with)));
            },
            None => {},
        }
        i = i + 1;
    }
    None
}

/// The names among `tags` for which there is no snippet, in the order of
/// the tags.
pub fn missing_among(tags: &Vec<ScriptTag>, snippets: &Vec<Snippet>) -> (missing: Vec<String>)
    ensures
        texts(missing@) == missing_snippets(tag_texts(tags@), snippet_texts(snippets@)),
{
    let mut missing: Vec<String> = Vec::new();
    let ghost all: TagTexts = tag_texts(tags@);
    let ghost bodies: SnippetTexts = snippet_texts(snippets@);
    let mut i: usize = 0;
    assert(all.take(0) == Seq::<(Seq<char>, Seq<char>)>::empty());
    assert(texts(missing@) == Seq::<Seq<char>>::empty());
    while i < tags.len()
        invariant
            i <= tags.len(),
            all == tag_texts(tags@),
            bodies == snippet_texts(snippets@),
            texts(missing@) == missing_snippets(all.take(i as int), bodies),
        decreases tags.len() - i,
    {
        assert(all.take(i + 1).drop_last() == all.take(i as int));
        assert(all.take(i + 1).last() == all[i as int]);
        if find_snippet(snippets, tags[i].name.as_str()).is_none() {
            let ghost before: Seq<Seq<char>> = texts(missing@);
            missing.push(tags[i].name.clone());
            assert(texts(missing@) == before.push(tags@[i as int].name@));
        }
        i = i + 1;
    }
    assert(all.take(i as int) == all);
    missing
}

/// What `add_reusable_javascript_components` owes for the outcome that the
/// contract names.
pub open spec fn inclusion_outcome(
    result: Result<ScriptInclusion, ExpandError>,
    owed: Result<InclusionView, ExpandError>,
) -> bool {
    match owed {
        Ok(view) => result is Ok && result->Ok_0@ == view,
        Err(e) => result is Err && result->Err_0 == e,
    }
}

/// Puts the reusable snippets into the script `content`. Every tag between
/// `re_start` and `re_end` names a snippet of `snippets`, which holds all
/// snippets there are; the tag gives way to the snippet's text. A tag that a
/// snippet brings with it is resolved in the same way, and so on, until no
/// tag is left that names a snippet. A tag without a snippet stays and its
/// name is reported.
///
/// At most `max_steps` tags are resolved. Where a tag with a snippet is
/// still left then, the result is `ExpansionDepthExceeded`.
pub fn add_reusable_javascript_components(
    content: &str,
    snippets: &Vec<Snippet>,
    re_start: &str,
    re_end: &str,
    max_steps: usize,
) -> (outcome: Result<ScriptInclusion, ExpandError>)
    ensures
        inclusion_outcome(
            outcome,
            included(content@, snippet_texts(snippets@), re_start@, re_end@, max_steps as nat),
        ),
{
    let mut text: String = content.to_owned();
    let mut steps_left: usize = max_steps;
    let ghost owed: Result<InclusionView, ExpandError> = included(
        content@,
        snippet_texts(snippets@),
        re_start@,
        re_end@,
        max_steps as nat,
    );
    loop
        invariant
            owed == included(
                content@,
                snippet_texts(snippets@),
                re_start@,
                re_end@,
                max_steps as nat,
            ),
            included(text@, snippet_texts(snippets@), re_start@, re_end@, steps_left as nat)
                == owed,
        decreases steps_left,
    {
        match script_tags(text.as_str(), re_start, re_end) {
            Err(_) => {
                return Err(ExpandError::PatternRejected);
            },
            Ok(tags) => {
                match include_first_snippet(text.as_str(), &tags, snippets) {
                    None => {
                        let missing: Vec<String> = missing_among(&tags, snippets);
                        return Ok(ScriptInclusion { text, missing });
                    },
                    Some(next) => {
                        if steps_left == 0 {
                            return Err(ExpandError::ExpansionDepthExceeded);
                        }
                        text = next;
                        steps_left = steps_left - 1;
                    },
                }
            },
        }
    }
}

} // verus!
