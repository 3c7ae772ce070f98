//! The parameter table of one expansion: what the tags of a file have bound
//! so far, and how a bound value is put into a component body.

use crate::text::{
    chars_of, first_occurrence, has_prefix, lemma_replaced_absent, lemma_replaced_at_first, occurs,
    push_all, push_range, replace_all, replaced, starts_with,
};
use vstd::prelude::*;

verus! {

/// A table of bindings as the contracts see it: keys with their values, in
/// the order in which the keys were first bound.
pub type Bindings = Seq<(Seq<char>, Seq<char>)>;

/// The texts of a sequence of key and value pairs.
pub open spec fn pair_texts(pairs: Seq<(String, String)>) -> Bindings {
    Seq::new(pairs.len(), |i: int| (pairs[i].0@, pairs[i].1@))
}

/// `key` is bound in `table`.
pub open spec fn has_key(table: Bindings, key: Seq<char>) -> bool {
    exists|i: int| 0 <= i < table.len() && (#[trigger] table[i]).0 == key
}

/// The value that `table` binds `key` to: that of the last entry with the
/// key.
pub open spec fn value_of(table: Bindings, key: Seq<char>) -> Option<Seq<char>>
    decreases table.len(),
{
    if table.len() == 0 {
        None
    } else if table.last().0 == key {
        Some(table.last().1)
    } else {
        value_of(table.drop_last(), key)
    }
}

/// No key stands twice in `table`.
pub open spec fn keys_distinct(table: Bindings) -> bool {
    forall|i: int, j: int|
        0 <= i < table.len() && 0 <= j < table.len() && i != j ==> (#[trigger] table[i]).0 != (
        #[trigger] table[j]).0
}

/// `table` after `key` was bound to `value`: a key that was bound keeps its
/// place and gets the new value, a new key goes to the end. No entry leaves.
pub open spec fn bound(table: Bindings, key: Seq<char>, value: Seq<char>) -> Bindings {
    if has_key(table, key) {
        Seq::new(
            table.len(),
            |i: int|
                if table[i].0 == key {
                    (key, value)
                } else {
                    table[i]
                },
        )
    } else {
        table.push((key, value))
    }
}

/// `table` after each pair of `pairs` was bound in turn, so that of two
/// values for one key the later one stays.
pub open spec fn bound_all(table: Bindings, pairs: Bindings) -> Bindings
    decreases pairs.len(),
{
    if pairs.len() == 0 {
        table
    } else {
        bound(bound_all(table, pairs.drop_last()), pairs.last().0, pairs.last().1)
    }
}

/// The tokens of the tag and placeholder syntax.
#[derive(Debug, Clone, PartialEq, Eq)]
pub struct Syntax {
    /// What a component tag begins with.
    pub re_start: String,
    /// What a component tag ends with.
    pub re_end: String,
    /// The marker that stands for the root of the site in links.
    pub root_placeholder: String,
    /// A value that begins with this names a component to include.
    pub template_prefix: String,
    /// A value that begins with this stands for nothing.
    pub none_prefix: String,
    /// What a placeholder begins with.
    pub re_param_s: String,
    /// What a placeholder ends with.
    pub re_param_e: String,
}

/// What the contracts say of a `Syntax`.
pub struct SyntaxView {
    pub re_start: Seq<char>,
    pub re_end: Seq<char>,
    pub root_placeholder: Seq<char>,
    pub template_prefix: Seq<char>,
    pub none_prefix: Seq<char>,
    pub re_param_s: Seq<char>,
    pub re_param_e: Seq<char>,
}

impl View for Syntax {
    type V = SyntaxView;

    open spec fn view(&self) -> SyntaxView {
        SyntaxView {
            re_start: self.re_start@,
            re_end: self.re_end@,
            root_placeholder: self.root_placeholder@,
            template_prefix: self.template_prefix@,
            none_prefix: self.none_prefix@,
            re_param_s: self.re_param_s@,
            re_param_e: self.re_param_e@,
        }
    }
}

/// The text that a bound value puts in. A value with the template prefix
/// becomes a tag that names the rest of the value, to be expanded later; a
/// value with the none prefix becomes nothing; any other value stands for
/// itself.
pub open spec fn resolved_value(value: Seq<char>, syntax: SyntaxView) -> Seq<char> {
    if starts_with(value, syntax.template_prefix) {
        syntax.re_start + value.skip(syntax.template_prefix.len() as int) + syntax.re_end
    } else if starts_with(value, syntax.none_prefix) {
        Seq::<char>::empty()
    } else {
        value
    }
}

/// The placeholder for `key` in a component body.
pub open spec fn placeholder(key: Seq<char>, syntax: SyntaxView) -> Seq<char> {
    syntax.re_param_s + key + syntax.re_param_e
}

/// `body` after the bindings of `table` were put in: for each entry in turn,
/// every placeholder for its key is replaced by its resolved value.
/// Placeholders for keys that are not bound stay as they are.
pub open spec fn substituted(body: Seq<char>, table: Bindings, syntax: SyntaxView) -> Seq<char>
    decreases table.len(),
{
    if table.len() == 0 {
        body
    } else {
        replaced(
            substituted(body, table.drop_last(), syntax),
            placeholder(table.last().0, syntax),
            resolved_value(table.last().1, syntax),
        )
    }
}

/// The bindings that one file's tags have made so far. A key, once bound,
/// stays bound; binding it again gives it the new value.
#[derive(Debug, Clone, PartialEq, Eq)]
pub struct ParameterTable {
    pub entries: Vec<(String, String)>,
}

impl View for ParameterTable {
    type V = Bindings;

    open spec fn view(&self) -> Bindings {
        pair_texts(self.entries@)
    }
}

impl ParameterTable {
    /// A table without bindings.
    pub fn new() -> (table: ParameterTable)
        ensures
            table@ == Seq::<(Seq<char>, Seq<char>)>::empty(),
    {
        let table = ParameterTable { entries: Vec::new() };
        table
    }

    /// The number of keys bound.
    pub fn len(&self) -> (n: usize)
        ensures
            n == self@.len(),
    {
        self.entries.len()
    }

    /// The value that `key` is bound to.
    pub fn get(&self, key: &str) -> (value: Option<String>)
        ensures
            match value_of(self@, key@) {
                Some(v) => value is Some && value->Some_0@ == v,
                None => value is None,
            },
    {
        let wanted: String = key.to_owned();
        let mut i: usize = self.entries.len();
        assert(self@.take(i as int) == self@);
        while i > 0
            invariant
                i <= self.entries.len(),
                wanted@ == key@,
                value_of(self@.take(i as int), key@) == value_of(self@, key@),
            decreases i,
        {
            i = i - 1;
            assert(self@.take(i + 1).drop_last() == self@.take(i as int));
            if self.entries[i].0 == wanted {
                return Some(self.entries[i].1.clone());
            }
        }
        None
    }

    /// Binds `key` to `value`. A key that was bound gets the new value; no
    /// other binding changes and none leaves.
    pub fn bind(&mut self, key: &str, value: &str)
        ensures
            final(self)@ == bound(old(self)@, key@, value@),
            keys_distinct(old(self)@) ==> keys_distinct(final(self)@),
    {
        proof {
            if keys_distinct(self@) {
                lemma_bound_keeps_distinct(self@, key@, value@);
            }
        }
        let wanted: String = key.to_owned();
        let ghost before: Bindings = self@;
        let mut found: bool = false;
        let mut i: usize = 0;
        while i < self.entries.len()
            invariant
                i <= self.entries.len(),
                wanted@ == key@,
                self@.len() == before.len(),
                found == has_key(before.take(i as int), key@),
                forall|k: int|
                    0 <= k < i ==> self@[k] == if (#[trigger] before[k]).0 == key@ {
                        (key@, value@)
                    } else {
                        before[k]
                    },
                forall|k: int| i <= k < before.len() ==> self@[k] == #[trigger] before[k],
            decreases self.entries.len() - i,
        {
            proof {
                let done: Bindings = before.take(i as int);
                let more: Bindings = before.take(i + 1);
                assert(self@[i as int] == before[i as int]);
                if has_key(done, key@) {
                    let k: int = choose|k: int| 0 <= k < done.len() && (#[trigger] done[k]).0 == key@;
                    assert(more[k].0 == key@);
                }
                if has_key(more, key@) && before[i as int].0 != key@ {
                    let k: int = choose|k: int| 0 <= k < more.len() && (#[trigger] more[k]).0 == key@;
                    assert(done[k].0 == key@);
                }
                if before[i as int].0 == key@ {
                    assert(more[i as int].0 == key@);
                }
            }
            if self.entries[i].0 == wanted {
                let ghost held: Seq<(String, String)> = self.entries@;
                self.entries.set(i, (key.to_owned(), value.to_owned()));
                assert(forall|k: int|
                    0 <= k < held.len() && k != i ==> self.entries@[k] == held[k]);
                assert(forall|k: int|
                    0 <= k < held.len() && k != i ==> self@[k] == pair_texts(held)[k]);
                found = true;
            }
            i = i + 1;
        }
        assert(before.take(i as int) == before);
        if !found {
            let ghost held: Seq<(String, String)> = self.entries@;
            assert forall|k: int| 0 <= k < before.len() implies pair_texts(held)[k]
                == before[k] by {
                assert(before[k].0 != key@);
            }
            self.entries.push((key.to_owned(), value.to_owned()));
            assert(self@ =~= before.push((key@, value@)));
        } else {
            assert(self@ =~= bound(before, key@, value@));
        }
    }

    /// Binds each pair of `pairs` in turn.
    pub fn bind_all(&mut self, pairs: &Vec<(String, String)>)
        ensures
            final(self)@ == bound_all(old(self)@, pair_texts(pairs@)),
            keys_distinct(old(self)@) ==> keys_distinct(final(self)@),
    {
        let ghost all: Bindings = pair_texts(pairs@);
        let mut i: usize = 0;
        while i < pairs.len()
            invariant
                i <= pairs.len(),
                all == pair_texts(pairs@),
                self@ == bound_all(old(self)@, all.take(i as int)),
                keys_distinct(old(self)@) ==> keys_distinct(self@),
            decreases pairs.len() - i,
        {
            assert(all.take(i + 1).drop_last() == all.take(i as int));
            self.bind(pairs[i].0.as_str(), pairs[i].1.as_str());
            i = i + 1;
        }
        assert(all.take(i as int) == all);
    }
}

/// A key that is bound stays bound when another binding is made.
pub proof fn lemma_bound_keeps_keys(
    table: Bindings,
    key: Seq<char>,
    value: Seq<char>,
    other: Seq<char>,
)
    requires
        has_key(table, other),
    ensures
        has_key(bound(table, key, value), other),
        bound(table, key, value).len() >= table.len(),
{
    let i: int = choose|i: int| 0 <= i < table.len() && (#[trigger] table[i]).0 == other;
    assert(bound(table, key, value)[i].0 == other);
}

/// A key that is bound stays bound through any number of further bindings:
/// the table of one expansion only grows.
pub proof fn lemma_bound_all_keeps_keys(table: Bindings, pairs: Bindings, key: Seq<char>)
    requires
        has_key(table, key),
    ensures
        has_key(bound_all(table, pairs), key),
    decreases pairs.len(),
{
    if pairs.len() > 0 {
        lemma_bound_all_keeps_keys(table, pairs.drop_last(), key);
        lemma_bound_keeps_keys(
            bound_all(table, pairs.drop_last()),
            pairs.last().0,
            pairs.last().1,
            key,
        );
    }
}

/// After a binding the key has the new value, and every other key has the
/// value it had.
pub proof fn lemma_bound_last_write_wins(
    table: Bindings,
    key: Seq<char>,
    value: Seq<char>,
    other: Seq<char>,
)
    ensures
        has_key(bound(table, key, value), key),
        value_of(bound(table, key, value), key) == Some(value),
        other != key ==> value_of(bound(table, key, value), other) == value_of(table, other),
    decreases table.len(),
{
    let after: Bindings = bound(table, key, value);
    if !has_key(table, key) {
        assert(after.drop_last() == table);
    } else {
        let i: int = choose|i: int| 0 <= i < table.len() && (#[trigger] table[i]).0 == key;
        assert(after[i].0 == key);
        lemma_rewritten_values(table, key, value, other, table.len() as int);
        assert(after.take(table.len() as int) == after);
        assert(table.take(table.len() as int) == table);
    }
}

/// The values of the first `n` entries of a table in which `key` was bound
/// again.
proof fn lemma_rewritten_values(
    table: Bindings,
    key: Seq<char>,
    value: Seq<char>,
    other: Seq<char>,
    n: int,
)
    requires
        has_key(table, key),
        0 <= n <= table.len(),
    ensures
        has_key(table.take(n), key) ==> value_of(bound(table, key, value).take(n), key) == Some(
            value,
        ),
        !has_key(table.take(n), key) ==> value_of(bound(table, key, value).take(n), key)
            is None,
        other != key ==> value_of(bound(table, key, value).take(n), other) == value_of(
            table.take(n),
            other,
        ),
    decreases n,
{
    let after: Bindings = bound(table, key, value);
    if n > 0 {
        lemma_rewritten_values(table, key, value, other, n - 1);
        assert(after.take(n).drop_last() == after.take(n - 1));
        assert(table.take(n).drop_last() == table.take(n - 1));
        assert(after.take(n).last() == after[n - 1]);
        assert(table.take(n).last() == table[n - 1]);
        if has_key(table.take(n - 1), key) {
            let i: int = choose|i: int|
                0 <= i < table.take(n - 1).len() && (#[trigger] table.take(n - 1)[i]).0 == key;
            assert(table.take(n)[i].0 == key);
        }
        if table[n - 1].0 == key {
            assert(table.take(n)[n - 1].0 == key);
        } else if has_key(table.take(n), key) {
            let i: int = choose|i: int|
                0 <= i < table.take(n).len() && (#[trigger] table.take(n)[i]).0 == key;
            assert(table.take(n - 1)[i].0 == key);
        }
    }
}

/// Binding keeps the keys of a table distinct.
pub proof fn lemma_bound_keeps_distinct(table: Bindings, key: Seq<char>, value: Seq<char>)
    requires
        keys_distinct(table),
    ensures
        keys_distinct(bound(table, key, value)),
{
    let after: Bindings = bound(table, key, value);
    if !has_key(table, key) {
        assert forall|i: int, j: int|
            0 <= i < after.len() && 0 <= j < after.len() && i != j implies (#[trigger] after[i]).0
            != (#[trigger] after[j]).0 by {
            if i < table.len() {
                assert(table[i].0 != key);
            }
            if j < table.len() {
                assert(table[j].0 != key);
            }
        }
    } else {
        assert forall|i: int, j: int|
            0 <= i < after.len() && 0 <= j < after.len() && i != j implies (#[trigger] after[i]).0
            != (#[trigger] after[j]).0 by {
            assert(after[i].0 == table[i].0);
            assert(after[j].0 == table[j].0);
        }
    }
}

/// The text that the bound value `value` puts in.
pub fn resolve_value(value: &Vec<char>, syntax: &Syntax) -> (out: Vec<char>)
    ensures
        out@ == resolved_value(value@, syntax@),
{
    let template: Vec<char> = chars_of(syntax.template_prefix.as_str());
    let none: Vec<char> = chars_of(syntax.none_prefix.as_str());
    let mut out: Vec<char> = Vec::new();
    if has_prefix(value, &template) {
        let start: Vec<char> = chars_of(syntax.re_start.as_str());
        let end: Vec<char> = chars_of(syntax.re_end.as_str());
        push_all(&mut out, &start);
        push_range(&mut out, value, template.len(), value.len());
        push_all(&mut out, &end);
    } else if has_prefix(value, &none) {
    } else {
        push_all(&mut out, value);
    }
    out
}

/// The placeholder for `key`.
pub fn placeholder_for(key: &Vec<char>, syntax: &Syntax) -> (out: Vec<char>)
    ensures
        out@ == placeholder(key@, syntax@),
{
    let open: Vec<char> = chars_of(syntax.re_param_s.as_str());
    let close: Vec<char> = chars_of(syntax.re_param_e.as_str());
    let mut out: Vec<char> = Vec::new();
    push_all(&mut out, &open);
    push_all(&mut out, key);
    push_all(&mut out, &close);
    out
}

/// Puts the bindings of `table` into `body`.
pub fn substitute_parameters(body: &Vec<char>, table: &ParameterTable, syntax: &Syntax) -> (out:
    Vec<char>)
    ensures
        out@ == substituted(body@, table@, syntax@),
{
    let mut out: Vec<char> = Vec::new();
    push_all(&mut out, body);
    let mut i: usize = 0;
    while i < table.entries.len()
        invariant
            i <= table.entries.len(),
            out@ == substituted(body@, table@.take(i as int), syntax@),
        decreases table.entries.len() - i,
    {
        assert(table@.take(i + 1).drop_last() == table@.take(i as int));
        let key: Vec<char> = chars_of(table.entries[i].0.as_str());
        let value: Vec<char> = chars_of(table.entries[i].1.as_str());
        let needle: Vec<char> = placeholder_for(&key, syntax);
        let with: Vec<char> = resolve_value(&value, syntax);
        out = replace_all(&out, &needle, &with);
        i = i + 1;
    }
    assert(table@.take(i as int) == table@);
    out
}

/// A body in which no placeholder of a bound key stands is left as it is.
pub proof fn lemma_unbound_placeholders_kept(body: Seq<char>, table: Bindings, syntax: SyntaxView)
    requires
        forall|i: int|
            0 <= i < table.len() ==> !occurs(body, placeholder((#[trigger] table[i]).0, syntax)),
        forall|i: int|
            0 <= i < table.len() ==> placeholder((#[trigger] table[i]).0, syntax).len() > 0,
    ensures
        substituted(body, table, syntax) == body,
    decreases table.len(),
{
    if table.len() > 0 {
        let rest: Bindings = table.drop_last();
        assert forall|i: int| 0 <= i < rest.len() implies !occurs(
            body,
            placeholder((#[trigger] rest[i]).0, syntax),
        ) && placeholder(rest[i].0, syntax).len() > 0 by {
            assert(rest[i] == table[i]);
        }
        lemma_unbound_placeholders_kept(body, rest, syntax);
        assert(table.last() == table[table.len() - 1]);
        lemma_replaced_absent(
            body,
            placeholder(table.last().0, syntax),
            resolved_value(table.last().1, syntax),
        );
    }
}

/// The placeholder of a bound key gives way to the resolved value: a body
/// that holds the placeholder once, between `before` and `after`, becomes
/// `before`, the resolved value and `after`.
pub proof fn lemma_bound_placeholder_substituted(
    before: Seq<char>,
    after: Seq<char>,
    key: Seq<char>,
    value: Seq<char>,
    syntax: SyntaxView,
)
    requires
        placeholder(key, syntax).len() > 0,
        first_occurrence(
            before + placeholder(key, syntax) + after,
            placeholder(key, syntax),
            before.len() as int,
        ),
        !occurs(after, placeholder(key, syntax)),
    ensures
        substituted(before + placeholder(key, syntax) + after, seq![(key, value)], syntax)
            == before + resolved_value(value, syntax) + after,
{
    let mark: Seq<char> = placeholder(key, syntax);
    let body: Seq<char> = before + mark + after;
    let with: Seq<char> = resolved_value(value, syntax);
    let table: Bindings = seq![(key, value)];
    assert(substituted(body, table.drop_last(), syntax) == body);
    lemma_replaced_at_first(body, mark, with, before.len() as int);
    assert(body.skip((before.len() + mark.len()) as int) == after);
    lemma_replaced_absent(after, mark, with);
}

} // verus!
