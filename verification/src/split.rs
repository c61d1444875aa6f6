//! Splitting, joining and searching text.
use vstd::prelude::*;
use crate::text::{self, chars_of, string_of, Text};

verus! {

// ---------------------------------------------------------------------------
// Splitting on a character
// ---------------------------------------------------------------------------
/// The pieces of a text between the occurrences of a separator. There is one
/// piece more than there are separators, and any of them may be empty.
pub open spec fn pieces(s: Text, sep: char) -> Seq<Text>
    decreases s.len(),
{
    if s.len() == 0 {
        seq![Seq::empty()]
    } else {
        let before = pieces(s.drop_last(), sep);
        if s.last() == sep {
            before.push(Seq::empty())
        } else {
            before.drop_last().push(before.last().push(s.last()))
        }
    }
}

/// Splitting always gives a piece.
pub proof fn lemma_pieces_nonempty(s: Text, sep: char)
    ensures
        pieces(s, sep).len() > 0,
    decreases s.len(),
{
    if s.len() > 0 {
        lemma_pieces_nonempty(s.drop_last(), sep);
    }
}

/// Where every character of every piece passes a test, every character of the
/// text passes it or is a separator.
pub proof fn lemma_piece_chars(s: Text, sep: char, test: spec_fn(char) -> bool)
    requires
        forall|i: int, k: int|
            0 <= i < pieces(s, sep).len() && 0 <= k < pieces(s, sep)[i].len() ==> test(
                #[trigger] pieces(s, sep)[i][k],
            ),
    ensures
        forall|k: int| 0 <= k < s.len() ==> #[trigger] s[k] == sep || test(s[k]),
    decreases s.len(),
{
    if s.len() > 0 {
        let rest = s.drop_last();
        let before = pieces(rest, sep);
        let all = pieces(s, sep);
        lemma_pieces_nonempty(rest, sep);
        assert forall|i: int, k: int| 0 <= i < before.len() && 0 <= k < before[i].len() implies test(
            #[trigger] before[i][k],
        ) by {
            assert(all[i][k] == before[i][k]);
        }
        lemma_piece_chars(rest, sep, test);
        assert forall|k: int| 0 <= k < s.len() implies #[trigger] s[k] == sep || test(s[k]) by {
            if k < rest.len() {
                assert(rest[k] == s[k]);
            } else if s[k] != sep {
                let last = all[before.len() - 1];
                assert(last[last.len() - 1] == s[k]);
            }
        }
    }
}

/// Splits a text at every occurrence of a character.
pub fn split(s: &str, sep: char) -> (r: Vec<String>)
    ensures
        text::views(r@) == pieces(s@, sep),
{
    broadcast use crate::text::group_views;

    let chars = chars_of(s);
    let mut done: Vec<String> = Vec::new();
    let mut current = String::new();
    let mut i: usize = 0;
    proof {
        assert(chars@.take(0) =~= Seq::<char>::empty());
        assert(text::views(done@).push(current@) =~= seq![Seq::<char>::empty()]);
    }
    while i < chars.len()
        invariant
            i <= chars@.len(),
            text::views(done@).push(current@) == pieces(chars@.take(i as int), sep),
        decreases chars@.len() - i,
    {
        let c: char = chars[i];
        proof {
            let next = chars@.take(i + 1);
            assert(next.drop_last() =~= chars@.take(i as int));
            assert(next.last() == c);
            assert(text::views(done@).push(current@).drop_last() =~= text::views(done@));
        }
        if c == sep {
            done.push(current);
            current = String::new();
        } else {
            current.push(c);
        }
        i = i + 1;
    }
    done.push(current);
    proof {
        assert(chars@.take(i as int) =~= s@);
    }
    done
}

/// The texts of a list one after another, with a separator between them.
pub open spec fn joined(parts: Seq<Text>, sep: Text) -> Text
    decreases parts.len(),
{
    if parts.len() == 0 {
        Seq::empty()
    } else if parts.len() == 1 {
        parts[0]
    } else {
        joined(parts.drop_last(), sep) + sep + parts.last()
    }
}

/// Joins a list of strings with a separator.
pub fn join(parts: &Vec<String>, sep: &str) -> (r: String)
    ensures
        r@ == joined(text::views(parts@), sep@),
{
    let mut out = String::new();
    let mut i: usize = 0;
    proof {
        assert(text::views(parts@).take(0) =~= Seq::empty());
    }
    while i < parts.len()
        invariant
            i <= parts@.len(),
            out@ == joined(text::views(parts@).take(i as int), sep@),
        decreases parts@.len() - i,
    {
        proof {
            let next = text::views(parts@).take(i + 1);
            assert(next.drop_last() =~= text::views(parts@).take(i as int));
            assert(next.last() == parts@[i as int]@);
        }
        if i > 0 {
            out.append(sep);
        }
        out.append(parts[i].as_str());
        proof {
            assert(i == 0 ==> out@ =~= parts@[0]@);
        }
        i = i + 1;
    }
    proof {
        assert(text::views(parts@).take(i as int) =~= text::views(parts@));
    }
    out
}

/// The texts of a list that are not empty, in order.
pub open spec fn nonempty(parts: Seq<Text>) -> Seq<Text>
    decreases parts.len(),
{
    if parts.len() == 0 {
        Seq::empty()
    } else {
        let before = nonempty(parts.drop_last());
        if parts.last().len() > 0 {
            before.push(parts.last())
        } else {
            before
        }
    }
}

/// Keeps the strings of a list that are not empty.
pub fn drop_empty(parts: Vec<String>) -> (r: Vec<String>)
    ensures
        text::views(r@) == nonempty(text::views(parts@)),
{
    broadcast use crate::text::group_views;

    let mut out: Vec<String> = Vec::new();
    let mut i: usize = 0;
    proof {
        assert(text::views(parts@).take(0) =~= Seq::empty());
    }
    while i < parts.len()
        invariant
            i <= parts@.len(),
            text::views(out@) == nonempty(text::views(parts@).take(i as int)),
        decreases parts@.len() - i,
    {
        proof {
            let next = text::views(parts@).take(i + 1);
            assert(next.drop_last() =~= text::views(parts@).take(i as int));
            assert(next.last() == parts@[i as int]@);
        }
        if !parts[i].as_str().is_empty() {
            out.push(parts[i].clone());
        }
        i = i + 1;
    }
    proof {
        assert(text::views(parts@).take(i as int) =~= text::views(parts@));
    }
    out
}

// ---------------------------------------------------------------------------
// Lines
// ---------------------------------------------------------------------------
/// A line without the carriage return that a line feed followed.
pub open spec fn without_return(line: Text) -> Text {
    if line.len() > 0 && line.last() == '\r' {
        line.drop_last()
    } else {
        line
    }
}

/// The lines of a text: the pieces between line feeds, each without the
/// carriage return before its line feed. What follows the last line feed is
/// a line only where it is not empty.
pub open spec fn lines_of(s: Text) -> Seq<Text> {
    let all = pieces(s, '\n');
    let ended = all.drop_last().map_values(|line: Text| without_return(line));
    if all.last().len() == 0 {
        ended
    } else {
        ended.push(all.last())
    }
}

/// Splits a text into its lines.
pub fn lines(s: &str) -> (r: Vec<String>)
    ensures
        text::views(r@) == lines_of(s@),
{
    broadcast use crate::text::group_views;

    let all = split(s, '\n');
    proof {
        lemma_pieces_nonempty(s@, '\n');
    }
    let ghost ended = text::views(all@).drop_last().map_values(|line: Text| without_return(line));
    let last = all.len() - 1;
    let mut out: Vec<String> = Vec::new();
    let mut i: usize = 0;
    while i < last
        invariant
            i <= last,
            last == all@.len() - 1,
            ended == text::views(all@).drop_last().map_values(|line: Text| without_return(line)),
            text::views(out@) == ended.take(i as int),
        decreases last - i,
    {
        let chars = chars_of(all[i].as_str());
        let n = chars.len();
        let line = if n > 0 && chars[n - 1] == '\r' {
            string_of(&chars, 0, n - 1)
        } else {
            all[i].clone()
        };
        proof {
            assert(n > 0 ==> chars@.subrange(0, n - 1) =~= chars@.drop_last());
            assert(ended[i as int] == line@);
            assert(ended.take(i + 1) =~= ended.take(i as int).push(line@));
        }
        out.push(line);
        i = i + 1;
    }
    proof {
        assert(ended.take(last as int) =~= ended);
    }
    if !all[last].as_str().is_empty() {
        out.push(all[last].clone());
    }
    out
}

// ---------------------------------------------------------------------------
// Ends
// ---------------------------------------------------------------------------
/// The part of a text after the last occurrence of a character, or all of it.
pub open spec fn after_last(s: Text, c: char) -> Text
    decreases s.len(),
{
    if s.len() == 0 || s.last() == c {
        Seq::empty()
    } else {
        after_last(s.drop_last(), c).push(s.last())
    }
}

/// A suffix that starts the text or follows the character, and does not hold
/// it, is the part after its last occurrence.
proof fn lemma_after_last(s: Text, c: char, from: int)
    requires
        0 <= from <= s.len(),
        forall|i: int| from <= i < s.len() ==> s[i] != c,
        from > 0 ==> s[from - 1] == c,
    ensures
        after_last(s, c) == s.subrange(from, s.len() as int),
    decreases s.len(),
{
    if from == s.len() {
        assert(s.subrange(from, s.len() as int) =~= Seq::empty());
    } else {
        let t = s.drop_last();
        lemma_after_last(t, c, from);
        assert(s.subrange(from, s.len() as int) =~= t.subrange(from, t.len() as int).push(s.last()));
    }
}

/// The last piece of a text between occurrences of a character.
pub fn last_piece(s: &str, c: char) -> (r: String)
    ensures
        r@ == after_last(s@, c),
{
    let chars = chars_of(s);
    let n = chars.len();
    let mut from: usize = n;
    while from > 0 && chars[from - 1] != c
        invariant
            from <= n,
            n == chars@.len(),
            forall|i: int| from <= i < n ==> chars@[i] != c,
        decreases from,
    {
        from = from - 1;
    }
    proof {
        lemma_after_last(chars@, c, from as int);
    }
    string_of(&chars, from, n)
}

/// A text without a suffix, however often it is repeated at the end.
pub open spec fn without_suffix(s: Text, suffix: Text) -> Text
    decreases s.len(),
{
    if 0 < suffix.len() && suffix.is_suffix_of(s) {
        without_suffix(s.take(s.len() - suffix.len()), suffix)
    } else {
        s
    }
}

/// Whether `part` stands in `chars` at position `at`.
fn stands_at(chars: &Vec<char>, part: &Vec<char>, at: usize) -> (r: bool)
    requires
        at + part@.len() <= chars@.len(),
    ensures
        r == (chars@.subrange(at as int, at + part@.len()) == part@),
{
    let n = chars.len();
    let mut k: usize = 0;
    while k < part.len()
        invariant
            k <= part@.len(),
            n == chars@.len(),
            at + part@.len() <= chars@.len(),
            forall|j: int| 0 <= j < k ==> chars@[at + j] == part@[j],
        decreases part@.len() - k,
    {
        if chars[at + k] != part[k] {
            proof {
                assert(chars@.subrange(at as int, at + part@.len())[k as int] != part@[k as int]);
            }
            return false;
        }
        k = k + 1;
    }
    proof {
        assert(chars@.subrange(at as int, at + part@.len()) =~= part@);
    }
    true
}

/// Removes a suffix as often as it occurs at the end.
pub fn strip_suffixes(s: &str, suffix: &str) -> (r: String)
    ensures
        r@ == without_suffix(s@, suffix@),
{
    let chars = chars_of(s);
    let tail = chars_of(suffix);
    let mut end: usize = chars.len();
    let mut going = tail.len() > 0 && end >= tail.len() && stands_at(&chars, &tail, end - tail.len());
    proof {
        assert(chars@.take(end as int) =~= s@);
        assert(end >= tail@.len() ==> s@.subrange(end - tail@.len(), end as int) == chars@.subrange(
            end - tail@.len(),
            end as int,
        ));
    }
    while going
        invariant
            end <= chars@.len(),
            tail@ == suffix@,
            going == (0 < tail@.len() && tail@.is_suffix_of(chars@.take(end as int))),
            without_suffix(s@, suffix@) == without_suffix(chars@.take(end as int), suffix@),
        decreases end,
    {
        proof {
            let kept = chars@.take(end as int);
            assert(kept.take(kept.len() - tail@.len()) =~= chars@.take(end - tail@.len()));
        }
        end = end - tail.len();
        going = end >= tail.len() && stands_at(&chars, &tail, end - tail.len());
        proof {
            let kept = chars@.take(end as int);
            assert(end >= tail@.len() ==> kept.subrange(end - tail@.len(), end as int)
                =~= chars@.subrange(end - tail@.len(), end as int));
        }
    }
    proof {
        assert(chars@.take(end as int) =~= chars@.subrange(0, end as int));
    }
    string_of(&chars, 0, end)
}

/// Whether a text begins with another.
pub fn begins_with(s: &str, prefix: &str) -> (r: bool)
    ensures
        r == prefix@.is_prefix_of(s@),
{
    let chars = chars_of(s);
    let head = chars_of(prefix);
    if head.len() > chars.len() {
        return false;
    }
    stands_at(&chars, &head, 0)
}

// ---------------------------------------------------------------------------
// Searching
// ---------------------------------------------------------------------------
/// `part` stands in `s` at position `at`.
pub open spec fn occurs_at(s: Text, part: Text, at: int) -> bool {
    0 <= at && at + part.len() <= s.len() && s.subrange(at, at + part.len()) == part
}

/// `part` stands somewhere in `s`.
pub open spec fn occurs_in(s: Text, part: Text) -> bool {
    exists|at: int| occurs_at(s, part, at)
}

/// The first position at or after `from` where `part` stands, if any.
pub fn find(chars: &Vec<char>, part: &Vec<char>, from: usize) -> (r: Option<usize>)
    requires
        from <= chars@.len(),
    ensures
        match r {
            Some(at) => from <= at && occurs_at(chars@, part@, at as int) && forall|k: int|
                from <= k < at ==> !occurs_at(chars@, part@, k),
            None => forall|k: int| from <= k ==> !occurs_at(chars@, part@, k),
        },
{
    let mut at: usize = from;
    while at <= chars.len() && part.len() <= chars.len() - at
        invariant
            from <= at <= chars@.len() + 1,
            forall|k: int| from <= k < at ==> !occurs_at(chars@, part@, k),
        decreases chars@.len() + 1 - at,
    {
        if stands_at(chars, part, at) {
            return Some(at);
        }
        if at == chars.len() {
            proof {
                assert forall|k: int| from <= k implies !occurs_at(chars@, part@, k) by {
                    if k > at {
                        assert(k + part@.len() > chars@.len());
                    }
                }
            }
            return None;
        }
        at = at + 1;
    }
    proof {
        assert forall|k: int| from <= k implies !occurs_at(chars@, part@, k) by {
            if k >= at {
                assert(k + part@.len() > chars@.len());
            }
        }
    }
    None
}

/// Whether a text holds another.
pub fn holds(s: &str, part: &str) -> (r: bool)
    ensures
        r == occurs_in(s@, part@),
{
    let chars = chars_of(s);
    let wanted = chars_of(part);
    match find(&chars, &wanted, 0) {
        Some(at) => {
            proof {
                assert(occurs_at(s@, part@, at as int));
            }
            true
        },
        None => {
            proof {
                assert forall|at: int| !occurs_at(s@, part@, at) by {
                    if at >= 0 {
                    }
                }
            }
            false
        },
    }
}

/// A text with every occurrence of one character turned into another.
pub open spec fn swapped(s: Text, from: char, to: char) -> Text {
    Seq::new(
        s.len(),
        |i: int|
            if s[i] == from {
                to
            } else {
                s[i]
            },
    )
}

/// Replaces one character by another throughout.
pub fn swap_char(s: &str, from: char, to: char) -> (r: String)
    ensures
        r@ == swapped(s@, from, to),
{
    let chars = chars_of(s);
    let mut out = String::new();
    let mut i: usize = 0;
    while i < chars.len()
        invariant
            i <= chars@.len(),
            chars@ == s@,
            out@ == swapped(s@, from, to).take(i as int),
        decreases chars@.len() - i,
    {
        if chars[i] == from {
            out.push(to);
        } else {
            out.push(chars[i]);
        }
        proof {
            assert(out@ =~= swapped(s@, from, to).take(i + 1));
        }
        i = i + 1;
    }
    proof {
        assert(out@ =~= swapped(s@, from, to));
    }
    out
}

// ---------------------------------------------------------------------------
// What holds of splitting and searching
// ---------------------------------------------------------------------------
/// What stands between two other parts of a text occurs in it.
pub proof fn lemma_occurs(s: Text, before: Text, part: Text, after: Text)
    requires
        s =~= before + part + after,
    ensures
        occurs_in(s, part),
{
    let at = before.len() as int;
    assert(s.subrange(at, at + part.len()) =~= part);
    assert(occurs_at(s, part, at));
}

/// What a text holds, it holds with more behind it.
pub broadcast proof fn lemma_occurs_left(a: Text, b: Text, part: Text)
    requires
        occurs_in(a, part),
    ensures
        #[trigger] occurs_in(a + b, part),
{
    let at = choose|at: int| occurs_at(a, part, at);
    assert((a + b).subrange(at, at + part.len()) =~= a.subrange(at, at + part.len()));
    assert(occurs_at(a + b, part, at));
}

/// What a text holds, it holds with more before it.
pub broadcast proof fn lemma_occurs_right(a: Text, b: Text, part: Text)
    requires
        occurs_in(b, part),
    ensures
        #[trigger] occurs_in(a + b, part),
{
    let at = choose|at: int| occurs_at(b, part, at);
    let place = a.len() + at;
    assert((a + b).subrange(place, place + part.len()) =~= b.subrange(at, at + part.len()));
    assert(occurs_at(a + b, part, place));
}

/// A text holds itself.
pub broadcast proof fn lemma_occurs_whole(s: Text)
    ensures
        #[trigger] occurs_in(s, s),
{
    assert(s.subrange(0, s.len() as int) =~= s);
    assert(occurs_at(s, s, 0));
}

pub broadcast group group_occurs {
    lemma_occurs_left,
    lemma_occurs_right,
    lemma_occurs_whole,
}

/// A text holds another exactly where it is made up of something, the other, and
/// something else.
pub proof fn law_what_a_text_holds(s: Text, part: Text)
    ensures
        occurs_in(s, part) <==> exists|before: Text, after: Text|
            s == #[trigger] ((before + part) + after),
{
    if occurs_in(s, part) {
        let at = choose|at: int| occurs_at(s, part, at);
        let before = s.take(at);
        let after = s.skip((at + part.len()) as int);
        assert(s =~= (before + part) + after);
    }
    if exists|before: Text, after: Text| s == #[trigger] ((before + part) + after) {
        let (before, after) = choose|before: Text, after: Text|
            s == #[trigger] ((before + part) + after);
        lemma_occurs(s, before, part, after);
    }
}

/// What is split at a character and joined with it again is the text, and no
/// piece holds the character.
#[verifier::rlimit(50)]
pub proof fn law_split_and_joined(s: Text, sep: char)
    ensures
        joined(pieces(s, sep), seq![sep]) == s,
        forall|i: int| 0 <= i < pieces(s, sep).len() ==> !(#[trigger] pieces(s, sep)[i]).contains(sep),
    decreases s.len(),
{
    let all = pieces(s, sep);
    if s.len() == 0 {
        assert(all[0] =~= s);
    } else {
        let rest = s.drop_last();
        let before = pieces(rest, sep);
        lemma_pieces_nonempty(rest, sep);
        law_split_and_joined(rest, sep);
        if s.last() == sep {
            assert(all.drop_last() =~= before);
            assert(joined(all, seq![sep]) =~= rest + seq![sep] + Seq::<char>::empty());
            assert(joined(all, seq![sep]) =~= s);
        } else {
            let last = before.last().push(s.last());
            assert(all.drop_last() =~= before.drop_last());
            assert(all.last() == last);
            if all.len() == 1 {
                assert(joined(all, seq![sep]) =~= s);
            } else {
                assert(joined(all, seq![sep]) =~= joined(before, seq![sep]).push(s.last()));
                assert(joined(all, seq![sep]) =~= s);
            }
            assert forall|i: int| 0 <= i < all.len() implies !(#[trigger] all[i]).contains(sep) by {
                assert(!before[i].contains(sep));
                if i == all.len() - 1 && all[i].contains(sep) {
                    let k = choose|k: int| 0 <= k < all[i].len() && all[i][k] == sep;
                    assert(before[i][k] == sep);
                }
            }
        }
    }
}

/// The last piece is what follows the last occurrence of a character.
pub proof fn law_the_last_piece(head: Text, tail: Text, c: char)
    requires
        !tail.contains(c),
    ensures
        after_last(head.push(c) + tail, c) == tail,
        after_last(tail, c) == tail,
{
    let s = head.push(c) + tail;
    let from = (head.len() + 1) as int;
    assert forall|i: int| from <= i < s.len() implies s[i] != c by {
        assert(s[i] == tail[i - from]);
        assert(tail.contains(tail[i - from]));
    }
    lemma_after_last(s, c, from);
    assert(s.subrange(from, s.len() as int) =~= tail);
    assert forall|i: int| 0 <= i < tail.len() implies tail[i] != c by {
        assert(tail.contains(tail[i]));
    }
    lemma_after_last(tail, c, 0);
    assert(tail.subrange(0, tail.len() as int) =~= tail);
}

/// A suffix is removed as often as it was added, and nothing else is.
pub proof fn law_suffixes_come_off(s: Text, suffix: Text)
    requires
        suffix.len() > 0,
    ensures
        without_suffix(s + suffix, suffix) == without_suffix(s, suffix),
        !suffix.is_suffix_of(s) ==> without_suffix(s, suffix) == s,
{
    let whole = s + suffix;
    assert(whole.subrange(whole.len() - suffix.len(), whole.len() as int) =~= suffix);
    assert(whole.take(whole.len() - suffix.len()) =~= s);
}

/// Only the one character is turned into the other.
pub proof fn law_only_one_character_is_swapped(s: Text, from: char, to: char, i: int)
    requires
        0 <= i < s.len(),
    ensures
        swapped(s, from, to).len() == s.len(),
        s[i] == from ==> swapped(s, from, to)[i] == to,
        s[i] != from ==> swapped(s, from, to)[i] == s[i],
{
}

/// A line that ends in a line feed, with or without a carriage return before it,
/// comes before the lines of the rest; and a text without a line feed is one line,
/// or none where it is empty.
#[verifier::rlimit(50)]
pub proof fn law_lines_end_in_line_feeds(line: Text, rest: Text)
    requires
        !line.contains('\n'),
    ensures
        line.len() > 0 ==> lines_of(line) == seq![line],
        line.len() == 0 ==> lines_of(line) == Seq::<Text>::empty(),
        line.len() == 0 || line.last() != '\r' ==> lines_of(line.push('\n') + rest) == seq![line]
            + lines_of(rest),
        line.len() > 0 && line.last() == '\r' ==> lines_of(line.push('\n') + rest) == seq![
            line.drop_last(),
        ] + lines_of(rest),
{
    lemma_one_piece(line, '\n');
    lemma_pieces_after(line, rest, '\n');
    lemma_pieces_nonempty(rest, '\n');
    let whole = line.push('\n') + rest;
    let tail = pieces(rest, '\n');
    assert(pieces(whole, '\n') == seq![line] + tail);
    assert((seq![line] + tail).drop_last() =~= seq![line] + tail.drop_last());
    assert(seq![line].drop_last() =~= Seq::<Text>::empty());
    assert(lines_of(line) =~= if line.len() > 0 {
        seq![line]
    } else {
        Seq::<Text>::empty()
    });
    assert(lines_of(whole) =~= seq![without_return(line)] + lines_of(rest));
}

/// A text without the separator is one piece.
pub proof fn lemma_one_piece(s: Text, sep: char)
    requires
        !s.contains(sep),
    ensures
        pieces(s, sep) == seq![s],
    decreases s.len(),
{
    if s.len() == 0 {
        assert(s =~= Seq::<char>::empty());
    } else {
        let rest = s.drop_last();
        assert(s.contains(s[s.len() - 1]));
        assert forall|k: int| 0 <= k < rest.len() implies rest[k] != sep by {
            assert(s.contains(s[k]));
        }
        lemma_one_piece(rest, sep);
        let before = pieces(rest, sep);
        assert(s.last() != sep);
        assert(before.drop_last() =~= Seq::<Text>::empty());
        assert(before.last() == rest);
        assert(rest.push(s.last()) =~= s);
        assert(Seq::<Text>::empty().push(s) =~= seq![s]);
    }
}

/// The first piece and the pieces of the rest.
pub proof fn lemma_pieces_after(first: Text, rest: Text, sep: char)
    requires
        !first.contains(sep),
    ensures
        pieces(first.push(sep) + rest, sep) == seq![first] + pieces(rest, sep),
    decreases rest.len(),
{
    let whole = first.push(sep) + rest;
    if rest.len() == 0 {
        lemma_one_piece(first, sep);
        assert(whole.drop_last() =~= first);
        assert(pieces(rest, sep) =~= seq![Seq::<char>::empty()]);
        assert(pieces(whole, sep) =~= seq![first] + pieces(rest, sep));
    } else {
        let shorter = rest.drop_last();
        lemma_pieces_after(first, shorter, sep);
        lemma_pieces_nonempty(shorter, sep);
        assert(whole.drop_last() =~= first.push(sep) + shorter);
        assert(whole.last() == rest.last());
        let before = pieces(shorter, sep);
        assert((seq![first] + before).drop_last() =~= seq![first] + before.drop_last());
        assert((seq![first] + before).last() == before.last());
        assert(pieces(whole, sep) =~= seq![first] + pieces(rest, sep));
    }
}

/// What is not empty stays, in front of what stays of the rest.
pub proof fn lemma_nonempty_first(first: Text, rest: Seq<Text>)
    requires
        first.len() > 0,
    ensures
        nonempty(seq![first] + rest) == seq![first] + nonempty(rest),
    decreases rest.len(),
{
    let whole = seq![first] + rest;
    if rest.len() == 0 {
        assert(whole.drop_last() =~= Seq::<Text>::empty());
        assert(whole.last() == first);
        assert(nonempty(Seq::<Text>::empty()) =~= Seq::<Text>::empty());
        assert(nonempty(whole) =~= seq![first] + nonempty(rest));
    } else {
        lemma_nonempty_first(first, rest.drop_last());
        assert(whole.drop_last() =~= seq![first] + rest.drop_last());
        assert(whole.last() == rest.last());
        assert(nonempty(whole) =~= seq![first] + nonempty(rest));
    }
}

} // verus!
