//! Text as sequences of characters: conversion between strings and
//! character vectors, searching and replacing.
//!
//! Every contract in the crate speaks of text as a `Seq<char>`. The
//! executable functions work on `Vec<char>`, where a position is a character
//! index and slicing can never split a character.

use vstd::prelude::*;

verus! {

/// `needle` stands in `hay` at character position `i`.
pub open spec fn occurs_at(hay: Seq<char>, needle: Seq<char>, i: int) -> bool {
    &&& 0 <= i
    &&& i + needle.len() <= hay.len()
    &&& hay.subrange(i, i + needle.len()) == needle
}

/// `needle` stands somewhere in `hay`.
pub open spec fn occurs(hay: Seq<char>, needle: Seq<char>) -> bool {
    exists|i: int| occurs_at(hay, needle, i)
}

/// `i` is the leftmost position at which `needle` stands in `hay`.
pub open spec fn first_occurrence(hay: Seq<char>, needle: Seq<char>, i: int) -> bool {
    &&& occurs_at(hay, needle, i)
    &&& forall|j: int| 0 <= j < i ==> !occurs_at(hay, needle, j)
}

/// `hay` begins with `prefix`.
pub open spec fn starts_with(hay: Seq<char>, prefix: Seq<char>) -> bool {
    occurs_at(hay, prefix, 0)
}

/// `s` with every occurrence of `from` replaced by `to`, scanning from the
/// left and never looking again at text that was already replaced.
///
/// An empty `from` stands before every character and at the end, so `to` is
/// put at each of these places.
pub open spec fn replaced(s: Seq<char>, from: Seq<char>, to: Seq<char>) -> Seq<char>
    decreases s.len(),
{
    if s.len() == 0 {
        if from.len() == 0 {
            to
        } else {
            s
        }
    } else if from.len() == 0 {
        to + seq![s[0]] + replaced(s.skip(1), from, to)
    } else if occurs_at(s, from, 0) {
        to + replaced(s.skip(from.len() as int), from, to)
    } else {
        seq![s[0]] + replaced(s.skip(1), from, to)
    }
}

/// `s` with `piece` put in before position `at`.
pub open spec fn inserted(s: Seq<char>, at: int, piece: Seq<char>) -> Seq<char> {
    s.take(at) + piece + s.skip(at)
}

/// `String::push` of the standard library. Believed: it appends the
/// character to the end of the string and changes nothing else.
pub assume_specification[ String::push ](s: &mut String, ch: char)
    ensures
        final(s)@ == old(s)@.push(ch),
;

/// The characters of `s`, in order.
pub fn chars_of(s: &str) -> (v: Vec<char>)
    ensures
        v@ == s@,
{
    let mut v: Vec<char> = Vec::new();
    for c in it: s.chars()
        invariant
            v@ == it.seq().take(it.index() as int),
    {
        v.push(c);
    }
    v
}

/// The string made of the characters of `v`, in order.
pub fn string_of(v: &Vec<char>) -> (s: String)
    ensures
        s@ == v@,
{
    let mut s = String::new();
    let mut i: usize = 0;
    while i < v.len()
        invariant
            i <= v.len(),
            s@ == v@.take(i as int),
        decreases v.len() - i,
    {
        s.push(v[i]);
        i = i + 1;
    }
    s
}

/// Appends the characters of `src` to `dst`.
pub fn push_all(dst: &mut Vec<char>, src: &Vec<char>)
    ensures
        final(dst)@ == old(dst)@ + src@,
{
    let mut i: usize = 0;
    while i < src.len()
        invariant
            i <= src.len(),
            dst@ == old(dst)@ + src@.take(i as int),
        decreases src.len() - i,
    {
        dst.push(src[i]);
        i = i + 1;
    }
}

/// Appends the characters `hay[from..to]` to `dst`.
pub fn push_range(dst: &mut Vec<char>, hay: &Vec<char>, from: usize, to: usize)
    requires
        from <= to <= hay.len(),
    ensures
        final(dst)@ == old(dst)@ + hay@.subrange(from as int, to as int),
{
    let mut i: usize = from;
    while i < to
        invariant
            from <= i <= to <= hay.len(),
            dst@ == old(dst)@ + hay@.subrange(from as int, i as int),
        decreases to - i,
    {
        dst.push(hay[i]);
        i = i + 1;
    }
}

/// The characters `hay[from..to]` as a vector of their own.
pub fn slice_of(hay: &Vec<char>, from: usize, to: usize) -> (out: Vec<char>)
    requires
        from <= to <= hay.len(),
    ensures
        out@ == hay@.subrange(from as int, to as int),
{
    let mut out: Vec<char> = Vec::new();
    push_range(&mut out, hay, from, to);
    out
}

/// Whether two texts hold the same characters.
pub fn same_text(a: &Vec<char>, b: &Vec<char>) -> (r: bool)
    ensures
        r == (a@ == b@),
{
    if a.len() != b.len() {
        return false;
    }
    let mut i: usize = 0;
    while i < a.len()
        invariant
            i <= a.len(),
            a.len() == b.len(),
            a@.take(i as int) == b@.take(i as int),
        decreases a.len() - i,
    {
        if a[i] != b[i] {
            return false;
        }
        i = i + 1;
    }
    assert(a@ == a@.take(a.len() as int));
    assert(b@ == b@.take(b.len() as int));
    true
}

/// Whether `needle` stands in `hay` at position `i`.
pub fn matches_at(hay: &Vec<char>, needle: &Vec<char>, i: usize) -> (r: bool)
    ensures
        r == occurs_at(hay@, needle@, i as int),
{
    if i > hay.len() || needle.len() > hay.len() - i {
        return false;
    }
    let mut k: usize = 0;
    while k < needle.len()
        invariant
            k <= needle.len(),
            i + needle.len() <= hay.len(),
            hay@.subrange(i as int, i + k) == needle@.take(k as int),
        decreases needle.len() - k,
    {
        if hay[i + k] != needle[k] {
            return false;
        }
        k = k + 1;
    }
    assert(needle@ == needle@.take(needle.len() as int));
    true
}

/// Whether `hay` begins with `prefix`.
pub fn has_prefix(hay: &Vec<char>, prefix: &Vec<char>) -> (r: bool)
    ensures
        r == starts_with(hay@, prefix@),
{
    matches_at(hay, prefix, 0)
}

/// The leftmost position at or after `from` at which `needle` stands in
/// `hay`, if there is one.
pub fn find_from(hay: &Vec<char>, needle: &Vec<char>, from: usize) -> (r: Option<usize>)
    ensures
        match r {
            Some(i) => {
                &&& from <= i
                &&& occurs_at(hay@, needle@, i as int)
                &&& forall|j: int| from <= j < i ==> !occurs_at(hay@, needle@, j)
            },
            None => forall|j: int| from <= j ==> !occurs_at(hay@, needle@, j),
        },
{
    if from > hay.len() {
        return None;
    }
    let mut i: usize = from;
    while i <= hay.len()
        invariant
            from <= i <= hay.len() + 1,
            forall|j: int| from <= j < i ==> !occurs_at(hay@, needle@, j),
        decreases hay.len() + 1 - i,
    {
        if matches_at(hay, needle, i) {
            return Some(i);
        }
        if i == hay.len() {
            return None;
        }
        i = i + 1;
    }
    None
}

/// The leftmost position at which `needle` stands in `hay`, if it stands
/// there at all.
pub fn find(hay: &Vec<char>, needle: &Vec<char>) -> (r: Option<usize>)
    ensures
        match r {
            Some(i) => first_occurrence(hay@, needle@, i as int),
            None => !occurs(hay@, needle@),
        },
{
    find_from(hay, needle, 0)
}

/// Whether `needle` stands somewhere in `hay`.
pub fn contains(hay: &Vec<char>, needle: &Vec<char>) -> (r: bool)
    ensures
        r == occurs(hay@, needle@),
{
    find(hay, needle).is_some()
}

/// `hay` with every occurrence of `needle` replaced by `with`.
pub fn replace_all(hay: &Vec<char>, needle: &Vec<char>, with: &Vec<char>) -> (out: Vec<char>)
    ensures
        out@ == replaced(hay@, needle@, with@),
{
    let mut out: Vec<char> = Vec::new();
    let mut i: usize = 0;
    let n: usize = needle.len();
    assert(hay@.skip(0) == hay@);
    while i < hay.len()
        invariant
            i <= hay.len(),
            n == needle.len(),
            out@ + replaced(hay@.skip(i as int), needle@, with@) == replaced(
                hay@,
                needle@,
                with@,
            ),
        decreases hay.len() - i,
    {
        let ghost rest: Seq<char> = hay@.skip(i as int);
        if n == 0 {
            assert(rest.skip(1) == hay@.skip(i + 1));
            push_all(&mut out, with);
            out.push(hay[i]);
            i = i + 1;
        } else if matches_at(hay, needle, i) {
            assert(rest.subrange(0, n as int) == hay@.subrange(i as int, i + n));
            assert(rest.skip(n as int) == hay@.skip(i + n));
            push_all(&mut out, with);
            i = i + n;
        } else {
            assert(occurs_at(rest, needle@, 0) ==> rest.subrange(0, n as int) == hay@.subrange(
                i as int,
                i + n,
            ));
            assert(rest.skip(1) == hay@.skip(i + 1));
            out.push(hay[i]);
            i = i + 1;
        }
    }
    if n == 0 {
        push_all(&mut out, with);
    }
    out
}

/// `hay` with `piece` put in before position `at`.
pub fn insert_at(hay: &Vec<char>, at: usize, piece: &Vec<char>) -> (out: Vec<char>)
    requires
        at <= hay.len(),
    ensures
        out@ == inserted(hay@, at as int, piece@),
{
    let mut out: Vec<char> = Vec::new();
    push_range(&mut out, hay, 0, at);
    push_all(&mut out, piece);
    push_range(&mut out, hay, at, hay.len());
    out
}

/// Where `needle` stands in `hay`, it stands there at a leftmost position.
pub proof fn lemma_first_occurrence_exists(hay: Seq<char>, needle: Seq<char>, i: int)
    requires
        occurs_at(hay, needle, i),
    ensures
        exists|j: int| first_occurrence(hay, needle, j),
    decreases i,
{
    if exists|k: int| 0 <= k < i && occurs_at(hay, needle, k) {
        let k: int = choose|k: int| 0 <= k < i && occurs_at(hay, needle, k);
        lemma_first_occurrence_exists(hay, needle, k);
    } else {
        assert(first_occurrence(hay, needle, i));
    }
}

/// A replacement leaves its mark: where `from` stands in the text, `to`
/// stands in the text after the replacement.
pub proof fn lemma_replaced_holds_replacement(s: Seq<char>, from: Seq<char>, to: Seq<char>)
    requires
        from.len() > 0,
        occurs(s, from),
    ensures
        occurs(replaced(s, from, to), to),
{
    let i: int = choose|i: int| occurs_at(s, from, i);
    lemma_first_occurrence_exists(s, from, i);
    let j: int = choose|j: int| first_occurrence(s, from, j);
    lemma_replaced_at_first(s, from, to, j);
    let after: Seq<char> = replaced(s, from, to);
    let rest: Seq<char> = replaced(s.skip(j + from.len()), from, to);
    assert(after == s.take(j) + to + rest);
    assert(after.subrange(j, j + to.len()) == to);
    assert(occurs_at(after, to, j));
}

/// Text in which `from` does not stand is left as it is by a replacement.
pub proof fn lemma_replaced_absent(s: Seq<char>, from: Seq<char>, to: Seq<char>)
    requires
        from.len() > 0,
        !occurs(s, from),
    ensures
        replaced(s, from, to) == s,
    decreases s.len(),
{
    if s.len() > 0 {
        let rest: Seq<char> = s.skip(1);
        assert forall|i: int| !occurs_at(rest, from, i) by {
            if occurs_at(rest, from, i) {
                assert(rest.subrange(i, i + from.len()) == s.subrange(i + 1, i + 1 + from.len()));
                assert(occurs_at(s, from, i + 1));
            }
        }
        lemma_replaced_absent(rest, from, to);
    }
}

/// A replacement copies the text before the leftmost occurrence of `from`,
/// puts `to` in its place and goes on behind it.
pub proof fn lemma_replaced_at_first(s: Seq<char>, from: Seq<char>, to: Seq<char>, i: int)
    requires
        from.len() > 0,
        first_occurrence(s, from, i),
    ensures
        replaced(s, from, to) == s.take(i) + to + replaced(s.skip(i + from.len()), from, to),
    decreases i,
{
    if i == 0 {
        assert(s.take(0) + to == to);
    } else {
        let rest: Seq<char> = s.skip(1);
        assert(!occurs_at(s, from, 0));
        assert(rest.subrange(i - 1, i - 1 + from.len()) == s.subrange(i, i + from.len()));
        assert forall|j: int| 0 <= j < i - 1 implies !occurs_at(rest, from, j) by {
            if occurs_at(rest, from, j) {
                assert(rest.subrange(j, j + from.len()) == s.subrange(j + 1, j + 1 + from.len()));
                assert(occurs_at(s, from, j + 1));
            }
        }
        lemma_replaced_at_first(rest, from, to, i - 1);
        assert(rest.skip(i - 1 + from.len()) == s.skip(i + from.len()));
        assert(seq![s[0]] + rest.take(i - 1) == s.take(i));
        assert(seq![s[0]] + (rest.take(i - 1) + to + replaced(
            s.skip(i + from.len()),
            from,
            to,
        )) == s.take(i) + to + replaced(s.skip(i + from.len()), from, to));
    }
}

/// The white space characters: those with the Unicode property White_Space.
pub open spec fn is_white_space(c: char) -> bool {
    let n: u32 = c as u32;
    (0x09 <= n && n <= 0x0D) || n == 0x20 || n == 0x85 || n == 0xA0 || n == 0x1680 || (0x2000 <= n
        && n <= 0x200A) || n == 0x2028 || n == 0x2029 || n == 0x202F || n == 0x205F || n
        == 0x3000
}

/// How many white space characters `s` begins with.
pub open spec fn leading_space(s: Seq<char>) -> nat
    decreases s.len(),
{
    if s.len() > 0 && is_white_space(s[0]) {
        1 + leading_space(s.skip(1))
    } else {
        0
    }
}

/// How many white space characters `s` ends with.
pub open spec fn trailing_space(s: Seq<char>) -> nat
    decreases s.len(),
{
    if s.len() > 0 && is_white_space(s.last()) {
        1 + trailing_space(s.drop_last())
    } else {
        0
    }
}

/// How many characters that are not white space `s` begins with.
pub open spec fn leading_word(s: Seq<char>) -> nat
    decreases s.len(),
{
    if s.len() > 0 && !is_white_space(s[0]) {
        1 + leading_word(s.skip(1))
    } else {
        0
    }
}

/// The first word of `s`: what stands between the white space that `s` begins
/// with and the next white space. It is empty where `s` is all white space.
pub open spec fn first_word(s: Seq<char>) -> Seq<char> {
    let rest: Seq<char> = s.skip(leading_space(s) as int);
    rest.take(leading_word(rest) as int)
}

/// `s` without the white space at its two ends.
pub open spec fn trimmed(s: Seq<char>) -> Seq<char> {
    let rest: Seq<char> = s.skip(leading_space(s) as int);
    rest.take(rest.len() - trailing_space(rest))
}

/// Whether `c` is a white space character.
pub fn is_space(c: char) -> (r: bool)
    ensures
        r == is_white_space(c),
{
    let n: u32 = c as u32;
    (0x09 <= n && n <= 0x0D) || n == 0x20 || n == 0x85 || n == 0xA0 || n == 0x1680 || (0x2000 <= n
        && n <= 0x200A) || n == 0x2028 || n == 0x2029 || n == 0x202F || n == 0x205F || n
        == 0x3000
}

/// The position behind the white space that `s` has from position `from` on.
pub fn skip_space(s: &Vec<char>, from: usize) -> (at: usize)
    requires
        from <= s.len(),
    ensures
        from <= at <= s.len(),
        at == from + leading_space(s@.skip(from as int)),
{
    let mut i: usize = from;
    while i < s.len() && is_space(s[i])
        invariant
            from <= i <= s.len(),
            (i - from) + leading_space(s@.skip(i as int)) == leading_space(s@.skip(from as int)),
        decreases s.len() - i,
    {
        assert(s@.skip(i as int).skip(1) == s@.skip(i + 1));
        i = i + 1;
    }
    i
}

/// The position behind the characters other than white space that `s` has
/// from position `from` on.
pub fn skip_word(s: &Vec<char>, from: usize) -> (at: usize)
    requires
        from <= s.len(),
    ensures
        from <= at <= s.len(),
        at == from + leading_word(s@.skip(from as int)),
{
    let mut i: usize = from;
    while i < s.len() && !is_space(s[i])
        invariant
            from <= i <= s.len(),
            (i - from) + leading_word(s@.skip(i as int)) == leading_word(s@.skip(from as int)),
        decreases s.len() - i,
    {
        assert(s@.skip(i as int).skip(1) == s@.skip(i + 1));
        i = i + 1;
    }
    i
}

/// The first word of `s`.
pub fn first_word_of(s: &Vec<char>) -> (word: Vec<char>)
    ensures
        word@ == first_word(s@),
{
    let start: usize = skip_space(s, 0);
    let end: usize = skip_word(s, start);
    assert(s@.skip(0) == s@);
    slice_of(s, start, end)
}

/// `s` without the white space at its two ends.
pub fn trim(s: &Vec<char>) -> (out: Vec<char>)
    ensures
        out@ == trimmed(s@),
{
    let start: usize = skip_space(s, 0);
    assert(s@.skip(0) == s@);
    let ghost rest: Seq<char> = s@.skip(start as int);
    let mut end: usize = s.len();
    assert(rest.take(rest.len() as int) == rest);
    while end > start && is_space(s[end - 1])
        invariant
            start <= end <= s.len(),
            rest == s@.skip(start as int),
            (s.len() - end) + trailing_space(rest.take(end - start)) == trailing_space(rest),
        decreases end,
    {
        assert(rest.take(end - start).drop_last() == rest.take(end - start - 1));
        end = end - 1;
    }
    slice_of(s, start, end)
}

/// How many characters of `text` stand before its first line feed; the
/// length of `text` where it has none.
pub open spec fn line_end(text: Seq<char>) -> nat
    decreases text.len(),
{
    if text.len() == 0 || text[0] == '\n' {
        0
    } else {
        1 + line_end(text.skip(1))
    }
}

/// `line` without the carriage return at its end, if it has one.
pub open spec fn without_carriage_return(line: Seq<char>) -> Seq<char> {
    if line.len() > 0 && line.last() == '\r' {
        line.drop_last()
    } else {
        line
    }
}

/// The lines of `text`. A line ends with a line feed, or with a carriage
/// return and a line feed, neither of which belongs to the line. What stands
/// behind the last line feed is a line too, unless it is empty.
pub open spec fn lines(text: Seq<char>) -> Seq<Seq<char>>
    decreases text.len(),
{
    if text.len() == 0 {
        Seq::<Seq<char>>::empty()
    } else if line_end(text) >= text.len() {
        seq![text]
    } else {
        seq![without_carriage_return(text.take(line_end(text) as int))] + lines(
            text.skip((line_end(text) + 1) as int),
        )
    }
}

/// The texts of a sequence of character vectors.
pub open spec fn vec_texts(pieces: Seq<Vec<char>>) -> Seq<Seq<char>> {
    Seq::new(pieces.len(), |i: int| pieces[i]@)
}

/// The position of the first line feed of `text` at or after `from`; the
/// length of `text` where there is none.
pub fn find_line_end(text: &Vec<char>, from: usize) -> (at: usize)
    requires
        from <= text.len(),
    ensures
        from <= at <= text.len(),
        at == from + line_end(text@.skip(from as int)),
{
    let mut i: usize = from;
    while i < text.len() && text[i] != '\n'
        invariant
            from <= i <= text.len(),
            (i - from) + line_end(text@.skip(i as int)) == line_end(text@.skip(from as int)),
        decreases text.len() - i,
    {
        assert(text@.skip(i as int).skip(1) == text@.skip(i + 1));
        i = i + 1;
    }
    i
}

/// The lines of `text`.
pub fn lines_of(text: &Vec<char>) -> (out: Vec<Vec<char>>)
    ensures
        vec_texts(out@) == lines(text@),
{
    let mut out: Vec<Vec<char>> = Vec::new();
    let mut i: usize = 0;
    assert(text@.skip(0) == text@);
    while i < text.len()
        invariant
            i <= text.len(),
            vec_texts(out@) + lines(text@.skip(i as int)) == lines(text@),
        decreases text.len() - i,
    {
        let ghost rest: Seq<char> = text@.skip(i as int);
        let end: usize = find_line_end(text, i);
        if end >= text.len() {
            let line: Vec<char> = slice_of(text, i, end);
            out.push(line);
            i = text.len();
        } else {
            let ghost whole: Seq<char> = rest.take(end - i);
            assert(rest.skip(end - i + 1) == text@.skip(end + 1));
            let stop: usize = if end > i && text[end - 1] == '\r' {
                end - 1
            } else {
                end
            };
            let line: Vec<char> = slice_of(text, i, stop);
            assert(line@ == without_carriage_return(whole));
            out.push(line);
            i = end + 1;
        }
    }
    out
}

/// `at` is the leftmost position at or after `from` at which `needle`
/// stands in `hay`.
pub open spec fn is_next_occurrence(hay: Seq<char>, needle: Seq<char>, from: int, at: int) -> bool {
    &&& from <= at
    &&& occurs_at(hay, needle, at)
    &&& forall|j: int| from <= j < at ==> !occurs_at(hay, needle, j)
}

/// The leftmost position at or after `from` at which `needle` stands in
/// `hay`, if there is one.
pub open spec fn next_occurrence(hay: Seq<char>, needle: Seq<char>, from: int) -> Option<int> {
    if exists|at: int| is_next_occurrence(hay, needle, from, at) {
        Some(choose|at: int| is_next_occurrence(hay, needle, from, at))
    } else {
        None
    }
}

/// `text` from position `from` on, with the pieces of `swaps` exchanged: the
/// pieces are looked for one after the other, each behind the one before,
/// and each gives way to the text that it is paired with. Where a piece is
/// not found, the rest of the text stays as it is.
pub open spec fn spliced(text: Seq<char>, from: int, swaps: Seq<(Seq<char>, Seq<char>)>) -> Seq<
    char,
>
    decreases swaps.len(),
{
    if swaps.len() == 0 {
        text.skip(from)
    } else {
        match next_occurrence(text, swaps[0].0, from) {
            Some(at) => text.subrange(from, at) + swaps[0].1 + spliced(
                text,
                at + swaps[0].0.len(),
                swaps.skip(1),
            ),
            None => text.skip(from),
        }
    }
}

/// The texts of a sequence of pairs of character vectors.
pub open spec fn swap_texts(swaps: Seq<(Vec<char>, Vec<char>)>) -> Seq<(Seq<char>, Seq<char>)> {
    Seq::new(swaps.len(), |i: int| (swaps[i].0@, swaps[i].1@))
}

/// `text` with the pieces of `swaps` exchanged, from left to right.
pub fn splice(text: &Vec<char>, swaps: &Vec<(Vec<char>, Vec<char>)>) -> (out: Vec<char>)
    ensures
        out@ == spliced(text@, 0, swap_texts(swaps@)),
{
    let mut out: Vec<char> = Vec::new();
    let mut cursor: usize = 0;
    let mut k: usize = 0;
    let ghost all: Seq<(Seq<char>, Seq<char>)> = swap_texts(swaps@);
    assert(all.skip(0) == all);
    while k < swaps.len()
        invariant
            k <= swaps.len(),
            cursor <= text.len(),
            all == swap_texts(swaps@),
            out@ + spliced(text@, cursor as int, all.skip(k as int)) == spliced(text@, 0, all),
        decreases swaps.len() - k,
    {
        let ghost rest: Seq<(Seq<char>, Seq<char>)> = all.skip(k as int);
        assert(rest.skip(1) == all.skip(k + 1));
        match find_from(text, &swaps[k].0, cursor) {
            Some(at) => {
                assert(is_next_occurrence(text@, rest[0].0, cursor as int, at as int));
                push_range(&mut out, text, cursor, at);
                push_all(&mut out, &swaps[k].1);
                cursor = at + swaps[k].0.len();
            },
            None => {
                push_range(&mut out, text, cursor, text.len());
                return out;
            },
        }
        k = k + 1;
    }
    push_range(&mut out, text, cursor, text.len());
    out
}

} // verus!
