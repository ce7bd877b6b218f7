//! Replacing a pattern in a text.

use vstd::prelude::*;

verus! {

/// Whether `pattern` stands in `text` at index `at`.
pub open spec fn occurs_at(text: Seq<char>, pattern: Seq<char>, at: int) -> bool {
    0 <= at && at + pattern.len() <= text.len() && text.subrange(at, at + pattern.len()) == pattern
}

/// `text` with every occurrence of `pattern` replaced, from the left; occurrences do not overlap.
pub open spec fn replace_all(text: Seq<char>, pattern: Seq<char>, with: Seq<char>) -> Seq<char>
    recommends
        pattern.len() > 0,
    decreases text.len(),
{
    if text.len() == 0 || pattern.len() == 0 {
        text
    } else if occurs_at(text, pattern, 0) {
        with + replace_all(text.skip(pattern.len() as int), pattern, with)
    } else {
        seq![text[0]] + replace_all(text.skip(1), pattern, with)
    }
}

/// Whether `text` begins with `prefix`.
pub open spec fn starts_with(text: Seq<char>, prefix: Seq<char>) -> bool {
    occurs_at(text, prefix, 0)
}

/// How many characters stand before the first `c`, or in the whole of a text without one.
pub open spec fn length_before(text: Seq<char>, c: char) -> int
    decreases text.len(),
{
    if text.len() == 0 || text[0] == c {
        0
    } else {
        1 + length_before(text.skip(1), c)
    }
}

/// What stands in `text` before the first `c`: all of it, where it has none.
pub open spec fn before(text: Seq<char>, c: char) -> Seq<char> {
    text.take(length_before(text, c))
}

/// The pieces of `text` between the occurrences of `pattern`, from the left.
pub open spec fn pieces(text: Seq<char>, pattern: Seq<char>) -> Seq<Seq<char>>
    recommends
        pattern.len() > 0,
    decreases text.len(),
{
    if text.len() == 0 || pattern.len() == 0 {
        seq![text]
    } else if occurs_at(text, pattern, 0) {
        seq![Seq::<char>::empty()] + pieces(text.skip(pattern.len() as int), pattern)
    } else {
        let rest = pieces(text.skip(1), pattern);
        rest.update(0, seq![text[0]] + rest[0])
    }
}

/// The pieces one after another, with `between` between two of them.
pub open spec fn join(pieces: Seq<Seq<char>>, between: Seq<char>) -> Seq<char>
    decreases pieces.len(),
{
    if pieces.len() == 0 {
        Seq::empty()
    } else if pieces.len() == 1 {
        pieces[0]
    } else {
        pieces[0] + between + join(pieces.skip(1), between)
    }
}

/// Replacing changes what stands between the pieces and keeps the pieces: they hold no occurrence
/// of the pattern, give the text with the pattern between them, and the replaced text with the
/// replacement between them.
pub proof fn law_replacement_keeps_the_pieces(
    text: Seq<char>,
    pattern: Seq<char>,
    with: Seq<char>,
)
    requires
        pattern.len() > 0,
    ensures
        pieces(text, pattern).len() > 0,
        join(pieces(text, pattern), pattern) == text,
        join(pieces(text, pattern), with) == replace_all(text, pattern, with),
        forall|i: int, at: int|
            0 <= i < pieces(text, pattern).len() ==> !#[trigger] occurs_at(
                pieces(text, pattern)[i],
                pattern,
                at,
            ),
    decreases text.len(),
{
    let all = pieces(text, pattern);
    if text.len() == 0 {
    } else if occurs_at(text, pattern, 0) {
        let n = pattern.len() as int;
        let tail = pieces(text.skip(n), pattern);
        law_replacement_keeps_the_pieces(text.skip(n), pattern, with);
        assert(all.skip(1) =~= tail);
        assert(all[0] =~= Seq::<char>::empty());
        assert(all[0] + pattern + text.skip(n) =~= text);
        assert(all[0] + with =~= with);
        assert forall|i: int, at: int| 0 <= i < all.len() implies !#[trigger] occurs_at(
            all[i],
            pattern,
            at,
        ) by {
            if i > 0 {
                assert(all[i] == tail[i - 1]);
            }
        }
    } else {
        let tail = pieces(text.skip(1), pattern);
        let head = seq![text[0]];
        law_replacement_keeps_the_pieces(text.skip(1), pattern, with);
        lemma_join_head(tail, head, pattern);
        lemma_join_head(tail, head, with);
        assert(head + text.skip(1) =~= text);
        assert forall|i: int, at: int| 0 <= i < all.len() implies !#[trigger] occurs_at(
            all[i],
            pattern,
            at,
        ) by {
            if i > 0 {
                assert(all[i] == tail[i]);
            } else if occurs_at(all[0], pattern, at) {
                let n = pattern.len() as int;
                if at > 0 {
                    assert(tail[0].subrange(at - 1, at - 1 + n) =~= all[0].subrange(at, at + n));
                    assert(occurs_at(tail[0], pattern, at - 1));
                } else {
                    lemma_join_starts_with_first(all, pattern);
                    assert(text.subrange(0, n) =~= all[0].subrange(0, n));
                }
            }
        }
    }
}

proof fn lemma_join_head(pieces: Seq<Seq<char>>, head: Seq<char>, between: Seq<char>)
    requires
        pieces.len() > 0,
    ensures
        join(pieces.update(0, head + pieces[0]), between) == head + join(pieces, between),
{
    let longer = pieces.update(0, head + pieces[0]);
    assert(longer.skip(1) =~= pieces.skip(1));
    assert(join(longer, between) =~= head + join(pieces, between));
}

proof fn lemma_join_starts_with_first(pieces: Seq<Seq<char>>, between: Seq<char>)
    requires
        pieces.len() > 0,
    ensures
        pieces[0].len() <= join(pieces, between).len(),
        join(pieces, between).take(pieces[0].len() as int) == pieces[0],
{
    assert(join(pieces, between).take(pieces[0].len() as int) =~= pieces[0]);
}

/// Replacing one character with another does so one by one.
pub proof fn lemma_replace_character(text: Seq<char>, old_char: char, new_char: char)
    ensures
        replace_all(text, seq![old_char], seq![new_char]) == text.map_values(
            |c: char|
                if c == old_char {
                    new_char
                } else {
                    c
                },
        ),
    decreases text.len(),
{
    let changed = |c: char|
        if c == old_char {
            new_char
        } else {
            c
        };
    if text.len() > 0 {
        lemma_replace_character(text.skip(1), old_char, new_char);
        assert(text.subrange(0, 1) =~= seq![text[0]]);
        assert(seq![text[0]][0] == text[0] && seq![old_char][0] == old_char);
        assert(text.map_values(changed) =~= seq![changed(text[0])] + text.skip(1).map_values(
            changed,
        ));
    } else {
        assert(text.map_values(changed) =~= text);
    }
}

/// `before` ends at the first `c` or at the end of the text.
pub proof fn lemma_before(text: Seq<char>, c: char)
    ensures
        0 <= length_before(text, c) <= text.len(),
        length_before(text, c) < text.len() ==> text[length_before(text, c)] == c,
        before(text, c).len() == length_before(text, c),
        forall|i: int| 0 <= i < length_before(text, c) ==> before(text, c)[i] != c,
    decreases text.len(),
{
    if text.len() > 0 && text[0] != c {
        lemma_before(text.skip(1), c);
        assert forall|i: int| 0 <= i < length_before(text, c) implies before(text, c)[i] != c by {
            if i > 0 {
                assert(before(text.skip(1), c)[i - 1] == text[i]);
            }
        }
    }
}

/// A text without the pattern stays as it is.
pub proof fn lemma_replace_nothing(text: Seq<char>, pattern: Seq<char>, with: Seq<char>)
    requires
        forall|at: int| !#[trigger] occurs_at(text, pattern, at),
    ensures
        replace_all(text, pattern, with) == text,
    decreases text.len(),
{
    if text.len() > 0 && pattern.len() > 0 {
        let rest = text.skip(1);
        assert forall|at: int| !#[trigger] occurs_at(rest, pattern, at) by {
            if occurs_at(rest, pattern, at) {
                assert(text.subrange(at + 1, at + 1 + pattern.len()) =~= rest.subrange(
                    at,
                    at + pattern.len(),
                ));
                assert(occurs_at(text, pattern, at + 1));
            }
        }
        lemma_replace_nothing(rest, pattern, with);
        assert(seq![text[0]] + rest =~= text);
    }
}

/// The characters of a text.
pub fn characters(text: &str) -> (chars: Vec<char>)
    ensures
        chars@ == text@,
{
    let mut chars: Vec<char> = Vec::new();
    for c in it: text.chars()
        invariant
            chars@ == it.seq().take(it.index()),
            it.seq() == text@,
    {
        chars.push(c);
        assert(it.seq().take(it.index() + 1) =~= it.seq().take(it.index()).push(c));
    }
    assert(text@.take(text@.len() as int) =~= text@);
    chars
}

/// Whether `pattern` stands in `text` at index `at`.
fn occurs(text: &Vec<char>, pattern: &Vec<char>, at: usize) -> (found: bool)
    requires
        at <= text@.len(),
    ensures
        found == occurs_at(text@, pattern@, at as int),
{
    let text_len = text.len();
    if pattern.len() > text_len - at {
        return false;
    }
    let mut k: usize = 0;
    while k < pattern.len()
        invariant
            k <= pattern@.len(),
            text_len == text@.len(),
            at + pattern@.len() <= text_len,
            forall|j: int| 0 <= j < k ==> text@[at + j] == pattern@[j],
        decreases pattern@.len() - k,
    {
        if text[at + k] != pattern[k] {
            assert(text@.subrange(at as int, at + pattern@.len())[k as int] != pattern@[k as int]);
            return false;
        }
        k = k + 1;
    }
    assert(text@.subrange(at as int, at + pattern@.len()) =~= pattern@);
    true
}

/// Replaces every occurrence of `pattern` in `text`.
pub fn replace(text: &str, pattern: &str, with: &str) -> (replaced: String)
    requires
        pattern@.len() > 0,
    ensures
        replaced@ == replace_all(text@, pattern@, with@),
{
    let chars = characters(text);
    let wanted = characters(pattern);
    let len = chars.len();
    let mut replaced = String::new();
    let mut copied: usize = 0;
    let mut at: usize = 0;
    assert(text@.skip(0) =~= text@);
    while at < len
        invariant
            copied <= at <= len,
            len == chars@.len(),
            chars@ == text@,
            wanted@ == pattern@,
            pattern@.len() > 0,
            replace_all(text@, pattern@, with@) == replaced@ + text@.subrange(
                copied as int,
                at as int,
            ) + replace_all(text@.skip(at as int), pattern@, with@),
        decreases len - at,
    {
        let ghost rest = text@.skip(at as int);
        if occurs(&chars, &wanted, at) {
            replaced.append(text.substring_char(copied, at));
            replaced.append(with);
            proof {
                assert(rest.subrange(0, pattern@.len() as int) =~= text@.subrange(
                    at as int,
                    at + pattern@.len(),
                ));
                assert(rest.skip(pattern@.len() as int) =~= text@.skip(at + pattern@.len()));
            }
            at = at + wanted.len();
            copied = at;
            assert(text@.subrange(copied as int, at as int) =~= Seq::<char>::empty());
        } else {
            proof {
                if occurs_at(rest, pattern@, 0) {
                    assert(rest.subrange(0, pattern@.len() as int) =~= text@.subrange(
                        at as int,
                        at + pattern@.len(),
                    ));
                }
                assert(rest.skip(1) =~= text@.skip(at + 1));
                assert(text@.subrange(copied as int, at + 1) =~= text@.subrange(
                    copied as int,
                    at as int,
                ) + seq![rest[0]]);
            }
            at = at + 1;
        }
    }
    replaced.append(text.substring_char(copied, len));
    replaced
}

/// What stands before the first `c` of `text`.
pub fn split_first(text: &str, c: char) -> (first: &str)
    ensures
        first@ == before(text@, c),
{
    let chars = characters(text);
    let len = chars.len();
    let mut at: usize = 0;
    assert(text@.skip(0) =~= text@);
    while at < len && chars[at] != c
        invariant
            at <= len,
            len == chars@.len(),
            chars@ == text@,
            length_before(text@, c) == at + length_before(text@.skip(at as int), c),
        decreases len - at,
    {
        assert(text@.skip(at as int).skip(1) =~= text@.skip(at + 1));
        at = at + 1;
    }
    text.substring_char(0, at)
}

/// Whether `text` begins with `prefix`.
pub fn has_prefix(text: &str, prefix: &str) -> (found: bool)
    ensures
        found == starts_with(text@, prefix@),
{
    let chars = characters(text);
    let wanted = characters(prefix);
    occurs(&chars, &wanted, 0)
}

/// Whether two texts are the same.
pub fn same(one: &str, other: &str) -> (equal: bool)
    ensures
        equal == (one@ == other@),
{
    one.to_owned() == other.to_owned()
}

/// An occurrence is the pattern, character for character; a prefix is an occurrence at the start.
pub proof fn law_occurrence_is_the_pattern(text: Seq<char>, pattern: Seq<char>, at: int)
    ensures
        occurs_at(text, pattern, at) <==> 0 <= at && at + pattern.len() <= text.len() && (forall|
            k: int,
        |
            0 <= k < pattern.len() ==> #[trigger] pattern[k] == text[at + k]),
        starts_with(text, pattern) <==> pattern.len() <= text.len() && (forall|k: int|
            0 <= k < pattern.len() ==> #[trigger] pattern[k] == text[k]),
{
    if 0 <= at && at + pattern.len() <= text.len() {
        let there = text.subrange(at, at + pattern.len());
        assert(forall|k: int| 0 <= k < pattern.len() ==> there[k] == text[at + k]);
        if forall|k: int| 0 <= k < pattern.len() ==> #[trigger] pattern[k] == text[at + k] {
            assert(there =~= pattern);
        }
    }
    if pattern.len() <= text.len() {
        let there = text.subrange(0, pattern.len() as int);
        assert(forall|k: int| 0 <= k < pattern.len() ==> there[k] == text[k]);
        if forall|k: int| 0 <= k < pattern.len() ==> #[trigger] pattern[k] == text[k] {
            assert(there =~= pattern);
        }
    }
}

/// A text in which the pattern stands nowhere is left as it is.
pub proof fn law_text_without_the_pattern_is_kept(
    text: Seq<char>,
    pattern: Seq<char>,
    with: Seq<char>,
)
    requires
        pattern.len() > 0,
        forall|at: int|
            0 <= at <= text.len() - pattern.len() ==> #[trigger] text.subrange(
                at,
                at + pattern.len(),
            ) != pattern,
    ensures
        replace_all(text, pattern, with) == text,
{
    assert forall|at: int| !#[trigger] occurs_at(text, pattern, at) by {
        if occurs_at(text, pattern, at) {
            assert(text.subrange(at, at + pattern.len()) == pattern);
        }
    }
    lemma_replace_nothing(text, pattern, with);
}

/// The first occurrence of the pattern gives way to the replacement; what stands before it is kept,
/// and what follows it is treated in the same way.
pub proof fn law_first_occurrence_is_replaced(
    text: Seq<char>,
    pattern: Seq<char>,
    with: Seq<char>,
    first: int,
)
    requires
        pattern.len() > 0,
        0 <= first <= text.len() - pattern.len(),
        text.subrange(first, first + pattern.len()) == pattern,
        forall|at: int|
            0 <= at < first ==> #[trigger] text.subrange(at, at + pattern.len()) != pattern,
    ensures
        replace_all(text, pattern, with) == text.take(first) + with + replace_all(
            text.skip(first + pattern.len()),
            pattern,
            with,
        ),
    decreases text.len(),
{
    let n = pattern.len() as int;
    let after = replace_all(text.skip(first + n), pattern, with);
    if first == 0 {
        assert(text.take(0) + with + after =~= with + after);
    } else {
        assert(text.subrange(0, 0 + n) != pattern);
        let rest = text.skip(1);
        assert(rest.subrange(first - 1, first - 1 + n) =~= text.subrange(first, first + n));
        assert forall|at: int| 0 <= at < first - 1 implies #[trigger] rest.subrange(at, at + n)
            != pattern by {
            assert(rest.subrange(at, at + n) =~= text.subrange(at + 1, at + 1 + n));
        }
        law_first_occurrence_is_replaced(rest, pattern, with, first - 1);
        assert(rest.skip(first - 1 + n) =~= text.skip(first + n));
        assert(seq![text[0]] + (rest.take(first - 1) + with + after) =~= text.take(first) + with
            + after);
    }
}

/// What stands before a character is all of a text without it, and otherwise what the first one
/// cuts off.
pub proof fn law_before_cuts_at_the_first(head: Seq<char>, c: char, tail: Seq<char>)
    requires
        forall|i: int| 0 <= i < head.len() ==> #[trigger] head[i] != c,
    ensures
        before(head, c) == head,
        before(head + seq![c] + tail, c) == head,
{
    lemma_before(head, c);
    if length_before(head, c) < head.len() {
        assert(head[length_before(head, c)] == c);
    }
    assert(before(head, c) =~= head);
    let whole = head + seq![c] + tail;
    let n = length_before(whole, c);
    lemma_before(whole, c);
    assert(whole[head.len() as int] == c);
    if n < head.len() {
        assert(whole[n] == head[n]);
    } else if n > head.len() {
        assert(before(whole, c)[head.len() as int] == whole[head.len() as int]);
    }
    assert(before(whole, c) =~= head);
}

/// A call of `replace` leaves a text without the pattern as it is, and otherwise puts the
/// replacement in place of the first occurrence and treats what follows as a text of its own.
pub proof fn law_replace_calls(
    text: &str,
    pattern: &str,
    with: &str,
    replaced: String,
    first: int,
    rest: &str,
    following: String,
)
    requires
        pattern@.len() > 0,
        call_ensures(replace, (text, pattern, with), replaced),
        call_ensures(replace, (rest, pattern, with), following),
    ensures
        (forall|at: int|
            0 <= at <= text@.len() - pattern@.len() ==> #[trigger] text@.subrange(
                at,
                at + pattern@.len(),
            ) != pattern@) ==> replaced@ == text@,
        0 <= first <= text@.len() - pattern@.len() && text@.subrange(first, first + pattern@.len())
            == pattern@ && (forall|at: int|
            0 <= at < first ==> #[trigger] text@.subrange(at, at + pattern@.len()) != pattern@)
            && rest@ == text@.skip(first + pattern@.len()) ==> replaced@ == text@.take(first) + with@
            + following@,
{
    if forall|at: int|
        0 <= at <= text@.len() - pattern@.len() ==> #[trigger] text@.subrange(
            at,
            at + pattern@.len(),
        ) != pattern@ {
        law_text_without_the_pattern_is_kept(text@, pattern@, with@);
    }
    if 0 <= first <= text@.len() - pattern@.len() && text@.subrange(first, first + pattern@.len())
        == pattern@ && (forall|at: int|
        0 <= at < first ==> #[trigger] text@.subrange(at, at + pattern@.len()) != pattern@) {
        law_first_occurrence_is_replaced(text@, pattern@, with@, first);
    }
}

/// Calls of `split_first`, `has_prefix`, `same` and `characters` go by the characters.
pub proof fn law_character_calls(
    text: &str,
    other: &str,
    c: char,
    first: &str,
    found: bool,
    equal: bool,
    chars: Vec<char>,
    head: Seq<char>,
    tail: Seq<char>,
)
    requires
        call_ensures(split_first, (text, c), first),
        call_ensures(has_prefix, (text, other), found),
        call_ensures(same, (text, other), equal),
        call_ensures(characters, (text,), chars),
        forall|i: int| 0 <= i < head.len() ==> #[trigger] head[i] != c,
    ensures
        text@ == head || text@ == head + seq![c] + tail ==> first@ == head,
        found <==> other@.len() <= text@.len() && (forall|k: int|
            0 <= k < other@.len() ==> #[trigger] other@[k] == text@[k]),
        equal <==> text@ == other@,
        chars@ == text@,
{
    law_before_cuts_at_the_first(head, c, tail);
    law_occurrence_is_the_pattern(text@, other@, 0);
}

} // verus!
