//! The textual bitmap-font descriptor: lines of `key=value` fields.
//!
//! A line that starts with `common ` carries the metrics of the font, a
//! line that starts with `char ` those of one glyph. Everything else is
//! passed over. Lines end at a line feed; a carriage return before it is
//! whitespace like any other and so never part of a field.
//!
//! The fields of a line form a map: no key stands twice, and where a line
//! repeats a key, the value of the last field counts. The map is kept as a
//! list of pairs in the order in which the keys first appear.
//!
//! All metrics are whole numbers. A value that is no whole number, such as
//! `20.5` or `1e3`, or that does not fit the 16 bits of a metric (32 bits
//! for `id`, `scaleW` and `scaleH`), counts as malformed and is discarded:
//! the metric keeps its default.

use vstd::prelude::*;
use std::collections::HashMap;
use crate::font::{spec_space_advance, BitmapFont, FontView, Glyph, SPACE};
use crate::number::{
    parse_i16, parse_u16, parse_u32, spec_parse_i16, spec_parse_u16, spec_parse_u32,
};
use crate::text::{
    chars_of, has_prefix, is_whitespace, lemma_trim_range, ranges_equal, trim_matches,
    whitespace,
};

verus! {

/// One field of a descriptor line.
#[derive(Debug)]
pub struct KeyValue {
    pub key: Vec<char>,
    pub value: Vec<char>,
}

impl View for KeyValue {
    type V = (Seq<char>, Seq<char>);

    open spec fn view(&self) -> (Seq<char>, Seq<char>) {
        (self.key@, self.value@)
    }
}

/// The fields of a line as pairs of plain sequences.
pub open spec fn views(pairs: Seq<KeyValue>) -> Seq<(Seq<char>, Seq<char>)> {
    Seq::new(pairs.len(), |i: int| pairs[i]@)
}

/// The double quote, which may surround a value.
pub open spec fn quotes() -> Set<char> {
    set!['"']
}

/// The first position from `from` on whose character is not in `class`,
/// or the length of `s`.
pub open spec fn skip_while(s: Seq<char>, from: int, class: Set<char>) -> int
    decreases s.len() - from,
{
    if 0 <= from < s.len() && class.contains(s[from]) {
        skip_while(s, from + 1, class)
    } else {
        from
    }
}

/// The first position from `from` on whose character is in `class`, or
/// the length of `s`.
pub open spec fn skip_until(s: Seq<char>, from: int, class: Set<char>) -> int
    decreases s.len() - from,
{
    if 0 <= from < s.len() && !class.contains(s[from]) {
        skip_until(s, from + 1, class)
    } else {
        from
    }
}

/// `skip_while` stops at the first character outside the class.
pub proof fn lemma_skip_while(s: Seq<char>, from: int, class: Set<char>, to: int)
    requires
        0 <= from <= to <= s.len(),
        forall|k: int| from <= k < to ==> class.contains(#[trigger] s[k]),
        to < s.len() ==> !class.contains(s[to]),
    ensures
        skip_while(s, from, class) == to,
    decreases to - from,
{
    if from < to {
        lemma_skip_while(s, from + 1, class, to);
    }
}

/// `skip_until` stops at the first character of the class.
pub proof fn lemma_skip_until(s: Seq<char>, from: int, class: Set<char>, to: int)
    requires
        0 <= from <= to <= s.len(),
        forall|k: int| from <= k < to ==> !class.contains(#[trigger] s[k]),
        to < s.len() ==> class.contains(s[to]),
    ensures
        skip_until(s, from, class) == to,
    decreases to - from,
{
    if from < to {
        lemma_skip_until(s, from + 1, class, to);
    }
}

/// A token that starts within `s` ends after its start and within `s`.
pub proof fn lemma_token_bounds(s: Seq<char>, from: int)
    requires
        0 <= from,
    ensures
        from <= skip_while(s, from, whitespace()),
        skip_while(s, from, whitespace()) < s.len() ==> skip_while(s, from, whitespace())
            < skip_until(s, skip_while(s, from, whitespace()), whitespace()) <= s.len(),
{
    lemma_skip_while_bounds(s, from, whitespace());
    let start = skip_while(s, from, whitespace());
    if start < s.len() {
        lemma_skip_until_bounds(s, start + 1, whitespace());
    }
}

/// `skip_while` goes forward, stays within the text and ends outside the
/// class.
pub proof fn lemma_skip_while_bounds(s: Seq<char>, from: int, class: Set<char>)
    requires
        0 <= from,
    ensures
        from <= skip_while(s, from, class),
        from <= s.len() ==> skip_while(s, from, class) <= s.len(),
        skip_while(s, from, class) < s.len() ==> !class.contains(
            s[skip_while(s, from, class)],
        ),
    decreases s.len() - from,
{
    if from < s.len() && class.contains(s[from]) {
        lemma_skip_while_bounds(s, from + 1, class);
    }
}

/// `skip_until` goes forward and stays within the text.
pub proof fn lemma_skip_until_bounds(s: Seq<char>, from: int, class: Set<char>)
    requires
        0 <= from,
    ensures
        from <= skip_until(s, from, class),
        from <= s.len() ==> skip_until(s, from, class) <= s.len(),
    decreases s.len() - from,
{
    if from < s.len() && !class.contains(s[from]) {
        lemma_skip_until_bounds(s, from + 1, class);
    }
}

/// The whitespace-separated tokens of `s` from `from` on.
pub open spec fn tokens_from(s: Seq<char>, from: int) -> Seq<Seq<char>>
    decreases s.len() - from,
{
    let start = skip_while(s, from, whitespace());
    let end = skip_until(s, start, whitespace());
    if from < 0 || start >= s.len() {
        Seq::empty()
    } else {
        proof {
            lemma_token_bounds(s, from);
        }
        seq![s.subrange(start, end)] + tokens_from(s, end)
    }
}

/// A token `key=value` as its key and its value without surrounding
/// quotes; the first `=` separates them. A token without `=` is no field.
pub open spec fn split_pair(token: Seq<char>) -> Option<(Seq<char>, Seq<char>)> {
    let eq = skip_until(token, 0, set!['=']);
    if eq < token.len() {
        Some(
            (
                token.subrange(0, eq),
                trim_matches(token.subrange(eq + 1, token.len() as int), quotes()),
            ),
        )
    } else {
        None
    }
}

/// The fields among `tokens`, in their order and with every repetition.
pub open spec fn fields_of(tokens: Seq<Seq<char>>) -> Seq<(Seq<char>, Seq<char>)>
    decreases tokens.len(),
{
    if tokens.len() == 0 {
        Seq::empty()
    } else {
        match split_pair(tokens.last()) {
            Some(pair) => fields_of(tokens.drop_last()).push(pair),
            None => fields_of(tokens.drop_last()),
        }
    }
}

/// `tokens` without its first entry, the tag of the line.
pub open spec fn after_tag(tokens: Seq<Seq<char>>) -> Seq<Seq<char>> {
    if tokens.len() == 0 {
        tokens
    } else {
        tokens.drop_first()
    }
}

/// All fields of a line as it writes them: of its tokens all but the
/// first, as far as they hold a `=`.
pub open spec fn line_fields(line: Seq<char>) -> Seq<(Seq<char>, Seq<char>)> {
    fields_of(after_tag(tokens_from(line, 0)))
}

/// Whether no two pairs share a key.
pub open spec fn distinct_keys(pairs: Seq<(Seq<char>, Seq<char>)>) -> bool {
    forall|i: int, j: int|
        0 <= i < j < pairs.len() ==> (#[trigger] pairs[i]).0 != (#[trigger] pairs[j]).0
}

/// The first position from `from` on whose pair has the key, or the
/// number of pairs.
pub open spec fn key_index(pairs: Seq<(Seq<char>, Seq<char>)>, key: Seq<char>, from: int) -> int
    decreases pairs.len() - from,
{
    if 0 <= from < pairs.len() && pairs[from].0 != key {
        key_index(pairs, key, from + 1)
    } else {
        from
    }
}

/// `pairs` with `value` under `key`: in place of the value that the key
/// had, or as a new pair at the end.
pub open spec fn put(pairs: Seq<(Seq<char>, Seq<char>)>, key: Seq<char>, value: Seq<char>) -> Seq<
    (Seq<char>, Seq<char>),
> {
    let at = key_index(pairs, key, 0);
    if at < pairs.len() {
        pairs.update(at, (key, value))
    } else {
        pairs.push((key, value))
    }
}

/// The map that a list of fields makes: every field is put into it in
/// turn, so that a later field replaces the value of an earlier one with
/// its key.
pub open spec fn collect(fields: Seq<(Seq<char>, Seq<char>)>) -> Seq<(Seq<char>, Seq<char>)>
    decreases fields.len(),
{
    if fields.len() == 0 {
        Seq::empty()
    } else {
        put(collect(fields.drop_last()), fields.last().0, fields.last().1)
    }
}

/// The fields of a line as a map: every key once, with the value of the
/// last field that has it.
pub open spec fn spec_parse_kv(line: Seq<char>) -> Seq<(Seq<char>, Seq<char>)> {
    collect(line_fields(line))
}

/// The value of `key` among `pairs`; of several pairs with the key the
/// last one counts.
pub open spec fn spec_lookup(pairs: Seq<(Seq<char>, Seq<char>)>, key: Seq<char>) -> Option<
    Seq<char>,
>
    decreases pairs.len(),
{
    if pairs.len() == 0 {
        None
    } else if pairs.last().0 == key {
        Some(pairs.last().1)
    } else {
        spec_lookup(pairs.drop_last(), key)
    }
}

/// `key_index` goes forward, stays within the pairs, passes no pair
/// with the key and stops at one.
pub proof fn lemma_key_index(pairs: Seq<(Seq<char>, Seq<char>)>, key: Seq<char>, from: int)
    requires
        0 <= from <= pairs.len(),
    ensures
        from <= key_index(pairs, key, from) <= pairs.len(),
        forall|j: int| from <= j < key_index(pairs, key, from) ==> (#[trigger] pairs[j]).0 != key,
        key_index(pairs, key, from) < pairs.len() ==> pairs[key_index(pairs, key, from)].0 == key,
    decreases pairs.len() - from,
{
    if from < pairs.len() && pairs[from].0 != key {
        lemma_key_index(pairs, key, from + 1);
    }
}

/// `key_index` is the first position whose pair has the key.
pub proof fn lemma_key_index_is(
    pairs: Seq<(Seq<char>, Seq<char>)>,
    key: Seq<char>,
    from: int,
    at: int,
)
    requires
        0 <= from <= at <= pairs.len(),
        forall|j: int| from <= j < at ==> (#[trigger] pairs[j]).0 != key,
        at < pairs.len() ==> pairs[at].0 == key,
    ensures
        key_index(pairs, key, from) == at,
    decreases at - from,
{
    if from < at {
        lemma_key_index_is(pairs, key, from + 1, at);
    }
}

/// The value of a key is that of the last pair that has it.
pub proof fn lemma_lookup_last(pairs: Seq<(Seq<char>, Seq<char>)>, key: Seq<char>, at: int)
    requires
        0 <= at < pairs.len(),
        pairs[at].0 == key,
        forall|j: int| at < j < pairs.len() ==> (#[trigger] pairs[j]).0 != key,
    ensures
        spec_lookup(pairs, key) == Some(pairs[at].1),
    decreases pairs.len(),
{
    if at < pairs.len() - 1 {
        let front = pairs.drop_last();
        assert(pairs.last() == pairs[pairs.len() - 1]);
        assert forall|j: int| at < j < front.len() implies (#[trigger] front[j]).0 != key by {
            assert(front[j] == pairs[j]);
        }
        lemma_lookup_last(front, key, at);
    }
}

/// A key that no pair has has no value.
pub proof fn lemma_lookup_none(pairs: Seq<(Seq<char>, Seq<char>)>, key: Seq<char>)
    requires
        forall|j: int| 0 <= j < pairs.len() ==> (#[trigger] pairs[j]).0 != key,
    ensures
        spec_lookup(pairs, key) is None,
    decreases pairs.len(),
{
    if pairs.len() > 0 {
        let front = pairs.drop_last();
        assert(pairs.last() == pairs[pairs.len() - 1]);
        assert forall|j: int| 0 <= j < front.len() implies (#[trigger] front[j]).0 != key by {
            assert(front[j] == pairs[j]);
        }
        lemma_lookup_none(front, key);
    }
}

/// Putting a value under a key keeps the keys apart.
pub proof fn lemma_put_distinct(
    pairs: Seq<(Seq<char>, Seq<char>)>,
    key: Seq<char>,
    value: Seq<char>,
)
    requires
        distinct_keys(pairs),
    ensures
        distinct_keys(put(pairs, key, value)),
        put(pairs, key, value).len() == (if key_index(pairs, key, 0) < pairs.len() {
            pairs.len()
        } else {
            pairs.len() + 1
        }),
{
    lemma_key_index(pairs, key, 0);
    let at = key_index(pairs, key, 0);
    let after = put(pairs, key, value);
    assert forall|i: int, j: int| 0 <= i < j < after.len() implies (#[trigger] after[i]).0 != (
    #[trigger] after[j]).0 by {
        if at < pairs.len() {
            assert(after[i].0 == pairs[i].0);
            assert(after[j].0 == pairs[j].0);
        } else {
            if j < pairs.len() {
                assert(after[i] == pairs[i]);
                assert(after[j] == pairs[j]);
            } else {
                assert(after[i] == pairs[i]);
            }
        }
    }
}

/// After a value was put under a key, that key has the value and every
/// other key has the value that it had.
pub proof fn lemma_put_lookup(
    pairs: Seq<(Seq<char>, Seq<char>)>,
    key: Seq<char>,
    value: Seq<char>,
    other: Seq<char>,
)
    requires
        distinct_keys(pairs),
    ensures
        spec_lookup(put(pairs, key, value), other) == (if other == key {
            Some(value)
        } else {
            spec_lookup(pairs, other)
        }),
{
    lemma_key_index(pairs, key, 0);
    lemma_put_distinct(pairs, key, value);
    let at = key_index(pairs, key, 0);
    let after = put(pairs, key, value);
    if other == key {
        assert(after[at] == (key, value));
        assert forall|j: int| at < j < after.len() implies (#[trigger] after[j]).0 != key by {
            assert(after[at].0 == key);
        }
        lemma_lookup_last(after, key, at);
    } else {
        lemma_key_index(pairs, other, 0);
        let m = key_index(pairs, other, 0);
        if m < pairs.len() {
            assert(pairs[m].0 == other);
            assert(after[m] == pairs[m]);
            assert forall|j: int| m < j < pairs.len() implies (#[trigger] pairs[j]).0 != other by {
                assert(pairs[m].0 == other);
            }
            assert forall|j: int| m < j < after.len() implies (#[trigger] after[j]).0 != other by {
                assert(after[m].0 == other);
            }
            lemma_lookup_last(pairs, other, m);
            lemma_lookup_last(after, other, m);
        } else {
            assert forall|j: int| 0 <= j < after.len() implies (#[trigger] after[j]).0 != other by {
                if j < pairs.len() {
                    assert(after[j].0 == pairs[j].0);
                }
            }
            lemma_lookup_none(pairs, other);
            lemma_lookup_none(after, other);
        }
    }
}

/// The map of a list of fields holds no key twice.
pub proof fn lemma_collect_distinct(fields: Seq<(Seq<char>, Seq<char>)>)
    ensures
        distinct_keys(collect(fields)),
    decreases fields.len(),
{
    if fields.len() > 0 {
        lemma_collect_distinct(fields.drop_last());
        lemma_put_distinct(collect(fields.drop_last()), fields.last().0, fields.last().1);
    }
}

/// In the map of a list of fields every key has the value of the last
/// field with that key, and a key that no field has has none.
pub proof fn lemma_collect_lookup(fields: Seq<(Seq<char>, Seq<char>)>, key: Seq<char>)
    ensures
        spec_lookup(collect(fields), key) == spec_lookup(fields, key),
    decreases fields.len(),
{
    if fields.len() > 0 {
        lemma_collect_distinct(fields.drop_last());
        lemma_collect_lookup(fields.drop_last(), key);
        lemma_put_lookup(collect(fields.drop_last()), fields.last().0, fields.last().1, key);
    }
}

/// The first position from `from` on at which `text` holds whitespace,
/// or its length.
pub fn find_whitespace(text: &Vec<char>, from: usize) -> (at: usize)
    requires
        from <= text.len(),
    ensures
        from <= at <= text.len(),
        at == skip_until(text@, from as int, whitespace()),
{
    let mut at: usize = from;
    while at < text.len() && !is_whitespace(text[at])
        invariant
            from <= at <= text.len(),
            forall|k: int| from <= k < at ==> !whitespace().contains(#[trigger] text@[k]),
        decreases text.len() - at,
    {
        at = at + 1;
    }
    proof {
        lemma_skip_until(text@, from as int, whitespace(), at as int);
    }
    at
}

/// The first position from `from` on at which `text` holds no
/// whitespace, or its length.
pub fn skip_whitespace(text: &Vec<char>, from: usize) -> (at: usize)
    requires
        from <= text.len(),
    ensures
        from <= at <= text.len(),
        at == skip_while(text@, from as int, whitespace()),
{
    let mut at: usize = from;
    while at < text.len() && is_whitespace(text[at])
        invariant
            from <= at <= text.len(),
            forall|k: int| from <= k < at ==> whitespace().contains(#[trigger] text@[k]),
        decreases text.len() - at,
    {
        at = at + 1;
    }
    proof {
        lemma_skip_while(text@, from as int, whitespace(), at as int);
    }
    at
}

/// The first position from `from` on at which `text` holds `c`, or its
/// length.
pub fn find_char(text: &Vec<char>, from: usize, c: char) -> (at: usize)
    requires
        from <= text.len(),
    ensures
        from <= at <= text.len(),
        at == skip_until(text@, from as int, set![c]),
{
    let mut at: usize = from;
    while at < text.len() && text[at] != c
        invariant
            from <= at <= text.len(),
            forall|k: int| from <= k < at ==> !set![c].contains(#[trigger] text@[k]),
        decreases text.len() - at,
    {
        at = at + 1;
    }
    proof {
        lemma_skip_until(text@, from as int, set![c], at as int);
    }
    at
}

/// A copy of the characters of `text` between `from` and `to`.
pub fn copy_range(text: &Vec<char>, from: usize, to: usize) -> (part: Vec<char>)
    requires
        from <= to <= text.len(),
    ensures
        part@ == text@.subrange(from as int, to as int),
{
    let mut part: Vec<char> = Vec::new();
    let mut i: usize = from;
    while i < to
        invariant
            from <= i <= to <= text.len(),
            part@ == text@.subrange(from as int, i as int),
        decreases to - i,
    {
        part.push(text[i]);
        assert(part@ =~= text@.subrange(from as int, i + 1));
        i = i + 1;
    }
    part
}

/// Splits a token at its first `=` and takes the quotes off the value.
pub fn split_token(token: &Vec<char>) -> (pair: Option<KeyValue>)
    ensures
        pair is Some <==> split_pair(token@) is Some,
        pair matches Some(kv) ==> Some(kv@) == split_pair(token@),
{
    let eq: usize = find_char(token, 0, '=');
    if eq >= token.len() {
        return None;
    }
    let mut start: usize = eq + 1;
    while start < token.len() && token[start] == '"'
        invariant
            eq < start <= token.len(),
            forall|k: int| eq < k < start ==> token@[k] == '"',
        decreases token.len() - start,
    {
        start = start + 1;
    }
    let mut end: usize = token.len();
    while end > start && token[end - 1] == '"'
        invariant
            start <= end <= token.len(),
            forall|k: int| end <= k < token.len() ==> token@[k] == '"',
        decreases end,
    {
        end = end - 1;
    }
    proof {
        let raw = token@.subrange(eq + 1, token.len() as int);
        assert forall|k: int| 0 <= k < start - eq - 1 implies quotes().contains(
            #[trigger] raw[k],
        ) by {
            assert(raw[k] == token@[k + eq + 1]);
        }
        assert forall|k: int| end - eq - 1 <= k < raw.len() implies quotes().contains(
            #[trigger] raw[k],
        ) by {
            assert(raw[k] == token@[k + eq + 1]);
        }
        if start < token.len() {
            assert(raw[start - eq - 1] == token@[start as int]);
        }
        if end > start {
            assert(raw[end - eq - 2] == token@[end - 1]);
        }
        lemma_trim_range(raw, quotes(), start - eq - 1, end - eq - 1);
        assert(raw.subrange(start - eq - 1, end - eq - 1) =~= token@.subrange(
            start as int,
            end as int,
        ));
    }
    Some(KeyValue { key: copy_range(token, 0, eq), value: copy_range(token, start, end) })
}

/// Whether two texts are the same.
pub fn same_chars(left: &Vec<char>, right: &Vec<char>) -> (same: bool)
    ensures
        same == (left@ == right@),
{
    if left.len() != right.len() {
        return false;
    }
    let same: bool = ranges_equal(left, 0, right, 0, left.len());
    assert(left@.subrange(0, left.len() as int) =~= left@);
    assert(right@.subrange(0, right.len() as int) =~= right@);
    same
}

/// Puts a field into the map: its value takes the place of the value
/// that its key had, or the field is added at the end.
pub fn put_pair(pairs: &mut Vec<KeyValue>, pair: KeyValue)
    ensures
        views(final(pairs)@) == put(views(old(pairs)@), pair@.0, pair@.1),
{
    let ghost before = views(pairs@);
    let mut at: usize = 0;
    while at < pairs.len() && !same_chars(&pairs[at].key, &pair.key)
        invariant
            at <= pairs.len(),
            pairs@ == old(pairs)@,
            before == views(pairs@),
            forall|j: int| 0 <= j < at ==> (#[trigger] before[j]).0 != pair@.0,
        decreases pairs.len() - at,
    {
        at = at + 1;
    }
    proof {
        lemma_key_index_is(before, pair@.0, 0, at as int);
    }
    if at < pairs.len() {
        pairs[at] = pair;
        assert(views(pairs@) =~= before.update(at as int, pair@));
    } else {
        pairs.push(pair);
        assert(views(pairs@) =~= before.push(pair@));
    }
}

/// Parses the fields of one descriptor line into a map. No key stands
/// twice in the result, and every key has the value of the last field of
/// the line with that key.
pub fn parse_kv(line: &Vec<char>) -> (pairs: Vec<KeyValue>)
    ensures
        views(pairs@) == spec_parse_kv(line@),
        distinct_keys(views(pairs@)),
        forall|key: Seq<char>| #[trigger]
            spec_lookup(views(pairs@), key) == spec_lookup(line_fields(line@), key),
{
    let mut pairs: Vec<KeyValue> = Vec::new();
    let mut at: usize = 0;
    let mut tag_seen: bool = false;
    let ghost mut seen: Seq<Seq<char>> = Seq::empty();
    assert(views(pairs@) =~= collect(fields_of(after_tag(seen))));
    loop
        invariant
            at <= line.len(),
            seen + tokens_from(line@, at as int) == tokens_from(line@, 0),
            tag_seen == (seen.len() > 0),
            views(pairs@) == collect(fields_of(after_tag(seen))),
        ensures
            views(pairs@) == spec_parse_kv(line@),
        decreases line.len() - at,
    {
        let start: usize = skip_whitespace(line, at);
        if start >= line.len() {
            assert(seen + Seq::<Seq<char>>::empty() =~= seen);
            break ;
        }
        let end: usize = find_whitespace(line, start);
        proof {
            lemma_token_bounds(line@, at as int);
        }
        let token: Vec<char> = copy_range(line, start, end);
        let ghost before = seen;
        proof {
            seen = seen.push(token@);
            assert(seen + tokens_from(line@, end as int) =~= before + tokens_from(
                line@,
                at as int,
            ));
        }
        if tag_seen {
            proof {
                assert(after_tag(seen) =~= after_tag(before).push(token@));
                assert(after_tag(seen).drop_last() =~= after_tag(before));
            }
            match split_token(&token) {
                Some(pair) => {
                    proof {
                        let fields = fields_of(after_tag(seen));
                        assert(fields.drop_last() =~= fields_of(after_tag(before)));
                        assert(fields.last() == pair@);
                    }
                    put_pair(&mut pairs, pair);
                },
                None => {},
            }
        } else {
            assert(after_tag(seen) =~= Seq::<Seq<char>>::empty());
            assert(after_tag(before) =~= Seq::<Seq<char>>::empty());
        }
        tag_seen = true;
        at = end;
    }
    proof {
        lemma_collect_distinct(line_fields(line@));
        assert forall|key: Seq<char>| #[trigger]
            spec_lookup(views(pairs@), key) == spec_lookup(line_fields(line@), key) by {
            lemma_collect_lookup(line_fields(line@), key);
        }
    }
    pairs
}

/// Whether `text` reads `word`.
pub fn text_is(text: &Vec<char>, word: &str) -> (same: bool)
    ensures
        same == (text@ == word@),
{
    let letters: Vec<char> = chars_of(word);
    if text.len() != letters.len() {
        return false;
    }
    let same: bool = ranges_equal(text, 0, &letters, 0, text.len());
    assert(text@.subrange(0, text.len() as int) =~= text@);
    assert(letters@.subrange(0, letters.len() as int) =~= letters@);
    same
}

/// Whether `text` starts with `word`.
pub fn starts_with(text: &Vec<char>, word: &str) -> (found: bool)
    ensures
        found == has_prefix(text@, word@),
{
    let letters: Vec<char> = chars_of(word);
    if text.len() < letters.len() {
        return false;
    }
    let found: bool = ranges_equal(text, 0, &letters, 0, letters.len());
    assert(letters@.subrange(0, letters.len() as int) =~= letters@);
    found
}

/// Looks up the value of `key`.
pub fn lookup<'a>(pairs: &'a Vec<KeyValue>, key: &str) -> (value: Option<&'a Vec<char>>)
    ensures
        value is Some <==> spec_lookup(views(pairs@), key@) is Some,
        value matches Some(v) ==> Some(v@) == spec_lookup(views(pairs@), key@),
{
    let mut i: usize = pairs.len();
    assert(views(pairs@).subrange(0, pairs@.len() as int) =~= views(pairs@));
    while i > 0
        invariant
            i <= pairs.len(),
            spec_lookup(views(pairs@), key@) == spec_lookup(
                views(pairs@).subrange(0, i as int),
                key@,
            ),
        decreases i,
    {
        let ghost front = views(pairs@).subrange(0, i as int);
        assert(front.last() == pairs@[i - 1]@);
        assert(front.drop_last() =~= views(pairs@).subrange(0, i - 1));
        if text_is(&pairs[i - 1].key, key) {
            return Some(&pairs[i - 1].value);
        }
        i = i - 1;
    }
    assert(views(pairs@).subrange(0, 0) =~= Seq::<(Seq<char>, Seq<char>)>::empty());
    None
}

/// The value of `key` as an unsigned 32-bit number, or `default` where it
/// is missing or no such number.
pub open spec fn field_u32(
    pairs: Seq<(Seq<char>, Seq<char>)>,
    key: Seq<char>,
    default: u32,
) -> u32 {
    match spec_lookup(pairs, key) {
        Some(value) => match spec_parse_u32(value) {
            Some(n) => n,
            None => default,
        },
        None => default,
    }
}

/// The value of `key` as an unsigned 16-bit number, or `default`.
pub open spec fn field_u16(
    pairs: Seq<(Seq<char>, Seq<char>)>,
    key: Seq<char>,
    default: u16,
) -> u16 {
    match spec_lookup(pairs, key) {
        Some(value) => match spec_parse_u16(value) {
            Some(n) => n,
            None => default,
        },
        None => default,
    }
}

/// The value of `key` as a signed 16-bit number, or `default`.
pub open spec fn field_i16(
    pairs: Seq<(Seq<char>, Seq<char>)>,
    key: Seq<char>,
    default: i16,
) -> i16 {
    match spec_lookup(pairs, key) {
        Some(value) => match spec_parse_i16(value) {
            Some(n) => n,
            None => default,
        },
        None => default,
    }
}

/// The glyph that the fields of a `char` line describe; what is missing
/// or malformed is 0.
pub open spec fn glyph_of(pairs: Seq<(Seq<char>, Seq<char>)>) -> Glyph {
    Glyph {
        x: field_u16(pairs, "x"@, 0),
        y: field_u16(pairs, "y"@, 0),
        width: field_u16(pairs, "width"@, 0),
        height: field_u16(pairs, "height"@, 0),
        x_offset: field_i16(pairs, "xoffset"@, 0),
        y_offset: field_i16(pairs, "yoffset"@, 0),
        x_advance: field_i16(pairs, "xadvance"@, 0),
    }
}

/// The font after one more line of the descriptor. A `common` line sets
/// the metrics that it names correctly and leaves the others; a `char`
/// line puts its glyph under its `id`, in place of an earlier one.
pub open spec fn apply_line(font: FontView, line: Seq<char>) -> FontView {
    let pairs = spec_parse_kv(line);
    if has_prefix(line, "common "@) {
        FontView {
            line_height: field_u16(pairs, "lineHeight"@, font.line_height),
            texture_width: field_u32(pairs, "scaleW"@, font.texture_width),
            texture_height: field_u32(pairs, "scaleH"@, font.texture_height),
            ..font
        }
    } else if has_prefix(line, "char "@) {
        FontView { glyphs: font.glyphs.insert(field_u32(pairs, "id"@, 0), glyph_of(pairs)), ..font }
    } else {
        font
    }
}

/// The line feed, which ends a line.
pub open spec fn line_feed() -> Set<char> {
    set!['\n']
}

/// The font after the lines of `content` from `from` on.
pub open spec fn apply_lines(font: FontView, content: Seq<char>, from: int) -> FontView
    decreases content.len() + 1 - from,
{
    let end = skip_until(content, from, line_feed());
    if from < 0 || from >= content.len() {
        font
    } else {
        proof {
            lemma_skip_until_bounds(content, from, line_feed());
        }
        apply_lines(apply_line(font, content.subrange(from, end)), content, end + 1)
    }
}

/// The metrics that hold until a descriptor says otherwise.
pub open spec fn blank_font() -> FontView {
    FontView {
        line_height: 48,
        texture_width: 512,
        texture_height: 512,
        glyphs: Map::empty(),
        space_advance: 0,
    }
}

/// The font that a descriptor describes: all its lines applied in order,
/// and the fallback advance taken from the outcome.
pub open spec fn spec_load_bitmap_font(content: Seq<char>) -> FontView {
    let font = apply_lines(blank_font(), content, 0);
    FontView {
        space_advance: spec_space_advance(font.glyphs, font.line_height) as i32,
        ..font
    }
}

/// Reads a field as an unsigned 32-bit number.
pub fn read_u32(pairs: &Vec<KeyValue>, key: &str, default: u32) -> (value: u32)
    ensures
        value == field_u32(views(pairs@), key@, default),
{
    match lookup(pairs, key) {
        Some(text) => match parse_u32(text) {
            Some(n) => n,
            None => default,
        },
        None => default,
    }
}

/// Reads a field as an unsigned 16-bit number.
pub fn read_u16(pairs: &Vec<KeyValue>, key: &str, default: u16) -> (value: u16)
    ensures
        value == field_u16(views(pairs@), key@, default),
{
    match lookup(pairs, key) {
        Some(text) => match parse_u16(text) {
            Some(n) => n,
            None => default,
        },
        None => default,
    }
}

/// Reads a field as a signed 16-bit number.
pub fn read_i16(pairs: &Vec<KeyValue>, key: &str, default: i16) -> (value: i16)
    ensures
        value == field_i16(views(pairs@), key@, default),
{
    match lookup(pairs, key) {
        Some(text) => match parse_i16(text) {
            Some(n) => n,
            None => default,
        },
        None => default,
    }
}

/// Applies one line of a descriptor to the font.
pub fn read_line(font: &mut BitmapFont, line: &Vec<char>)
    ensures
        final(font)@ == apply_line(old(font)@, line@),
{
    broadcast use vstd::std_specs::hash::group_hash_axioms;

    if starts_with(line, "common ") {
        let values: Vec<KeyValue> = parse_kv(line);
        font.line_height = read_u16(&values, "lineHeight", font.line_height);
        font.texture_width = read_u32(&values, "scaleW", font.texture_width);
        font.texture_height = read_u32(&values, "scaleH", font.texture_height);
    } else if starts_with(line, "char ") {
        let values: Vec<KeyValue> = parse_kv(line);
        let id: u32 = read_u32(&values, "id", 0);
        let glyph = Glyph {
            x: read_u16(&values, "x", 0),
            y: read_u16(&values, "y", 0),
            width: read_u16(&values, "width", 0),
            height: read_u16(&values, "height", 0),
            x_offset: read_i16(&values, "xoffset", 0),
            y_offset: read_i16(&values, "yoffset", 0),
            x_advance: read_i16(&values, "xadvance", 0),
        };
        font.glyphs.insert(id, glyph);
    }
}

/// Builds the font table from the text of a descriptor.
pub fn load_bitmap_font(content: &str) -> (font: BitmapFont)
    ensures
        font@ == spec_load_bitmap_font(content@),
{
    broadcast use vstd::std_specs::hash::group_hash_axioms;

    let text: Vec<char> = chars_of(content);
    let mut font = BitmapFont {
        line_height: 48,
        texture_width: 512,
        texture_height: 512,
        glyphs: HashMap::new(),
        space_advance: 0,
    };
    let mut from: usize = 0;
    while from < text.len()
        invariant
            from <= text.len(),
            apply_lines(font@, text@, from as int) == apply_lines(blank_font(), text@, 0),
        decreases text.len() - from,
    {
        let end: usize = find_char(&text, from, '\n');
        let line: Vec<char> = copy_range(&text, from, end);
        let ghost before = font@;
        read_line(&mut font, &line);
        proof {
            assert(end == skip_until(text@, from as int, line_feed()));
            assert(apply_lines(before, text@, from as int) == apply_lines(
                font@,
                text@,
                end + 1,
            ));
            if end == text.len() {
                assert(apply_lines(font@, text@, end + 1) == font@);
                assert(apply_lines(font@, text@, end as int) == font@);
            }
        }
        from = if end < text.len() {
            end + 1
        } else {
            end
        };
    }
    font.space_advance = match font.glyphs.get(&SPACE) {
        Some(glyph) => 1000 * (glyph.x_advance as i32),
        None => 250 * (font.line_height as i32),
    };
    font
}

} // verus!
