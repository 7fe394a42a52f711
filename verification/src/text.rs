//! Searching and splitting sequences of characters, and the passage between
//! strings and vectors of characters.

use vstd::prelude::*;
use vstd::std_specs::iter::IteratorSpec;

verus! {

/// The position of the first `c` in `s`, or the length of `s` where it holds none.
pub open spec fn find(s: Seq<char>, c: char) -> int
    decreases s.len(),
{
    if s.len() == 0 || s[0] == c {
        0
    } else {
        1 + find(s.skip(1), c)
    }
}

/// The pieces of `s` between its occurrences of `c`: one more piece than
/// there are occurrences, empty pieces included.
pub open spec fn split(s: Seq<char>, c: char) -> Seq<Seq<char>>
    decreases s.len(),
{
    let i = find(s, c);
    if 0 <= i < s.len() {
        seq![s.take(i)] + split(s.skip(i + 1), c)
    } else {
        seq![s]
    }
}

/// The pieces put together again, with one `c` between each two neighbours.
pub open spec fn join(pieces: Seq<Seq<char>>, c: char) -> Seq<char>
    decreases pieces.len(),
{
    if pieces.len() == 0 {
        Seq::empty()
    } else if pieces.len() == 1 {
        pieces[0]
    } else {
        pieces[0] + seq![c] + join(pieces.skip(1), c)
    }
}

/// The parts of `chars` that `spans` marks, each span a pair of a first
/// position and the position behind the last.
pub open spec fn pieces(chars: Seq<char>, spans: Seq<(usize, usize)>) -> Seq<Seq<char>> {
    Seq::new(spans.len(), |k: int| chars.subrange(spans[k].0 as int, spans[k].1 as int))
}

/// Every span is in order and lies within `start..end`.
pub open spec fn spans_within(spans: Seq<(usize, usize)>, start: int, end: int) -> bool {
    forall|k: int|
        0 <= k < spans.len() ==> start <= (#[trigger] spans[k]).0 <= spans[k].1 <= end
}

/// `find` stays within `s`, points at a `c` unless it is the length of `s`,
/// and nothing before it is a `c`.
pub proof fn lemma_find(s: Seq<char>, c: char)
    ensures
        0 <= find(s, c) <= s.len(),
        find(s, c) < s.len() ==> s[find(s, c)] == c,
        forall|i: int| 0 <= i < find(s, c) ==> s[i] != c,
    decreases s.len(),
{
    if s.len() != 0 && s[0] != c {
        let rest = s.skip(1);
        lemma_find(rest, c);
        assert forall|i: int| 0 <= i < find(s, c) implies s[i] != c by {
            if i > 0 {
                assert(s[i] == rest[i - 1]);
            }
        }
    }
}

/// A position that holds `c` and has no `c` before it is the one that `find` gives.
pub proof fn lemma_find_is(s: Seq<char>, c: char, i: int)
    requires
        0 <= i <= s.len(),
        i < s.len() ==> s[i] == c,
        forall|j: int| 0 <= j < i ==> s[j] != c,
    ensures
        find(s, c) == i,
{
    lemma_find(s, c);
    let f = find(s, c);
    if f < i {
        assert(s[f] != c);
    }
}

/// Appends `c` to `text`.
///
/// Trusted: `String::push`, which puts the one character at the end of the
/// string and leaves the rest as it was.
#[verifier::external_body]
pub(crate) fn push_char(text: &mut String, c: char)
    ensures
        final(text)@ == old(text)@.push(c),
{
    text.push(c);
}

/// The characters of `text`, in order.
pub fn chars_of(text: &str) -> (chars: Vec<char>)
    ensures
        chars@ == text@,
{
    let mut chars: Vec<char> = Vec::new();
    let mut rest = text.chars();
    loop
        invariant
            chars@ + rest.remaining() == text@,
            rest.decrease() is Some,
        decreases rest.decrease()->0,
    {
        match rest.next() {
            Some(c) => {
                chars.push(c);
            },
            None => {
                return chars;
            },
        }
    }
}

/// The string made of `chars[start..end]`.
pub fn string_of(chars: &[char], start: usize, end: usize) -> (text: String)
    requires
        start <= end <= chars@.len(),
    ensures
        text@ == chars@.subrange(start as int, end as int),
{
    let mut text = String::new();
    let mut i: usize = start;
    while i < end
        invariant
            start <= i <= end <= chars@.len(),
            text@ == chars@.subrange(start as int, i as int),
        decreases end - i,
    {
        push_char(&mut text, chars[i]);
        i += 1;
    }
    text
}

/// The position of the first `c` in `chars[start..end]`, or `end` where it
/// holds none.
pub fn find_char(chars: &[char], start: usize, end: usize, c: char) -> (at: usize)
    requires
        start <= end <= chars@.len(),
    ensures
        start <= at <= end,
        at - start == find(chars@.subrange(start as int, end as int), c),
{
    let mut at: usize = start;
    while at < end && chars[at] != c
        invariant
            start <= at <= end <= chars@.len(),
            forall|j: int| start <= j < at ==> chars@[j] != c,
        decreases end - at,
    {
        at += 1;
    }
    proof {
        lemma_find_is(chars@.subrange(start as int, end as int), c, at - start);
    }
    at
}

/// Splitting gives at least one piece, and no piece holds a `c`.
pub proof fn lemma_split_pieces(s: Seq<char>, c: char)
    ensures
        split(s, c).len() >= 1,
        forall|k: int| 0 <= k < split(s, c).len() ==> !(#[trigger] split(s, c)[k]).contains(c),
    decreases s.len(),
{
    lemma_find(s, c);
    let i = find(s, c);
    if i < s.len() {
        let rest = split(s.skip(i + 1), c);
        lemma_split_pieces(s.skip(i + 1), c);
        assert forall|k: int| 0 <= k < split(s, c).len() implies !(#[trigger] split(s, c)[k]).contains(
            c,
        ) by {
            if k > 0 {
                assert(split(s, c)[k] == rest[k - 1]);
            }
        }
    }
}

/// Joining the pieces of a split with the character it was split at gives
/// the sequence back.
pub proof fn lemma_join_split(s: Seq<char>, c: char)
    ensures
        join(split(s, c), c) == s,
    decreases s.len(),
{
    lemma_find(s, c);
    let i = find(s, c);
    if i < s.len() {
        let rest = s.skip(i + 1);
        lemma_join_split(rest, c);
        lemma_split_pieces(rest, c);
        assert(split(s, c).skip(1) == split(rest, c));
        assert(s == s.take(i) + seq![c] + rest);
    }
}

/// Pieces that hold no `c` are what splitting their join gives: `split` is
/// the one way to cut a sequence at every `c`.
pub proof fn lemma_split_join(parts: Seq<Seq<char>>, c: char)
    requires
        parts.len() >= 1,
        forall|k: int| 0 <= k < parts.len() ==> !(#[trigger] parts[k]).contains(c),
    ensures
        split(join(parts, c), c) == parts,
    decreases parts.len(),
{
    let s = join(parts, c);
    let head = parts[0];
    assert(!head.contains(c));
    if parts.len() == 1 {
        lemma_find_is(s, c, s.len() as int);
        assert(parts == seq![s]);
    } else {
        let tail = parts.skip(1);
        assert forall|k: int| 0 <= k < tail.len() implies !(#[trigger] tail[k]).contains(c) by {
            assert(tail[k] == parts[k + 1]);
        }
        lemma_split_join(tail, c);
        lemma_find_is(s, c, head.len() as int);
        assert(s.take(head.len() as int) == head);
        assert(s.skip(head.len() as int + 1) == join(tail, c));
        assert(parts == seq![head] + tail);
    }
}

/// The spans of the pieces of `chars[start..end]` between its occurrences of `c`.
pub fn split_spans(chars: &[char], start: usize, end: usize, c: char) -> (spans: Vec<(usize, usize)>)
    requires
        start <= end <= chars@.len(),
    ensures
        spans_within(spans@, start as int, end as int),
        pieces(chars@, spans@) == split(chars@.subrange(start as int, end as int), c),
{
    let mut spans: Vec<(usize, usize)> = Vec::new();
    let mut from: usize = start;
    loop
        invariant
            start <= from <= end <= chars@.len(),
            spans_within(spans@, start as int, end as int),
            split(chars@.subrange(start as int, end as int), c) == pieces(chars@, spans@) + split(
                chars@.subrange(from as int, end as int),
                c,
            ),
        decreases end - from,
    {
        let at = find_char(chars, from, end, c);
        let ghost before = spans@;
        let ghost rest = chars@.subrange(from as int, end as int);
        spans.push((from, at));
        proof {
            assert(pieces(chars@, spans@) == pieces(chars@, before) + seq![
                chars@.subrange(from as int, at as int),
            ]);
            assert(rest.take(at - from) == chars@.subrange(from as int, at as int));
        }
        if at == end {
            proof {
                assert(rest == chars@.subrange(from as int, at as int));
            }
            return spans;
        }
        proof {
            assert(rest.skip(at - from + 1) == chars@.subrange(at + 1, end as int));
        }
        from = at + 1;
    }
}

} // verus!
