//! Decoding the reply to a status query.
//!
//! A reply is text in lines. The first line only marks the reply. The second
//! holds the keys of the server: a backslash in front of each key and of each
//! value, key and value in turn. Each line behind it stands for a player and
//! holds the name between double quotes, but for the last line, which closes
//! the reply.

use vstd::prelude::*;
use vstd::utf8::{decode_utf8, valid_utf8};
use crate::client::Q3Client;
use crate::keys::{map_of, ServerKeys};
use crate::status::{named_player, Player, ServerStatus, StatusView};
use crate::string_utils::sanitize_span;
use crate::text::{
    chars_of, find, find_char, lemma_find, lemma_find_is, lemma_split_pieces, pieces,
    spans_within, split, split_spans, string_of,
};

verus! {

/// The character that ends a line.
pub const LINE_BREAK: char = '\n';

/// The character in front of each key and each value.
pub const KEY_MARK: char = '\\';

/// The character on both sides of a player's name.
pub const QUOTE: char = '"';

/// Why a reply could not be decoded.
#[derive(Debug, Clone, Copy, PartialEq, Eq, Structural)]
pub enum DecodeError {
    /// The reply has no second line.
    TooFewLines,
    /// The second line holds no key.
    MissingKey,
    /// The last key of the second line has no value behind it.
    MissingValue,
    /// The line at this position, counted from 0, holds no name between
    /// double quotes.
    PlayerName { line: usize },
}

/// The keys and values of a line, in turn: what stands behind each backslash.
/// What stands in front of the first backslash is no part of them.
pub open spec fn key_tokens(line: Seq<char>) -> Seq<Seq<char>> {
    split(line, KEY_MARK).skip(1)
}

/// The tokens two by two, each key with the value behind it.
pub open spec fn key_pairs(tokens: Seq<Seq<char>>) -> Seq<(Seq<char>, Seq<char>)> {
    Seq::new(tokens.len() / 2, |k: int| (tokens[2 * k], tokens[2 * k + 1]))
}

/// The keys that a line holds. A line without a key is refused, and so is
/// one whose last key has no value. Of a key that comes twice the later
/// value counts.
pub open spec fn line_keys(line: Seq<char>) -> Result<Map<Seq<char>, Seq<char>>, DecodeError> {
    let tokens = key_tokens(line);
    if tokens.len() == 0 {
        Err(DecodeError::MissingKey)
    } else if tokens.len() % 2 == 1 {
        Err(DecodeError::MissingValue)
    } else {
        Ok(map_of(key_pairs(tokens)))
    }
}

/// The name on a player's line: what stands between the first double quote
/// and the second, if the line has both and anything stands between them.
pub open spec fn quoted_name(line: Seq<char>) -> Option<Seq<char>> {
    let open = find(line, QUOTE);
    if 0 <= open < line.len() {
        let rest = line.skip(open + 1);
        let close = find(rest, QUOTE);
        if 0 < close < rest.len() {
            Some(rest.take(close))
        } else {
            None
        }
    } else {
        None
    }
}

/// The lines that stand for players: those behind the second line, without
/// the last line of the reply.
pub open spec fn player_rows(lines: Seq<Seq<char>>) -> Seq<Seq<char>> {
    if lines.len() >= 3 {
        lines.subrange(2, lines.len() - 1)
    } else {
        Seq::empty()
    }
}

/// The position of the first of `rows` that holds no name, or the length of
/// `rows` where each holds one.
pub open spec fn first_unnamed(rows: Seq<Seq<char>>) -> int
    decreases rows.len(),
{
    if rows.len() == 0 || quoted_name(rows[0]) is None {
        0
    } else {
        1 + first_unnamed(rows.skip(1))
    }
}

/// What a reply decodes to.
///
/// The keys are those of the second line. The players are named by the lines
/// behind it, in their order. A reply of one line is refused; then a second
/// line that `line_keys` refuses, with its error; then the first player's
/// line without a name.
pub open spec fn decoded(text: Seq<char>) -> Result<StatusView, DecodeError> {
    let lines = split(text, LINE_BREAK);
    if lines.len() < 2 {
        Err(DecodeError::TooFewLines)
    } else {
        let rows = player_rows(lines);
        let unnamed = first_unnamed(rows);
        match line_keys(lines[1]) {
            Err(e) => Err(e),
            Ok(keys) => if unnamed < rows.len() {
                Err(DecodeError::PlayerName { line: (unnamed + 2) as usize })
            } else {
                Ok(
                    StatusView {
                        keys,
                        players: Seq::new(
                            rows.len(),
                            |i: int| named_player(quoted_name(rows[i]).unwrap()),
                        ),
                    },
                )
            },
        }
    }
}

/// `first_unnamed` stays within `rows`, points at a line without a name
/// unless it is the length of `rows`, and every line before it holds a name.
pub proof fn lemma_first_unnamed(rows: Seq<Seq<char>>)
    ensures
        0 <= first_unnamed(rows) <= rows.len(),
        first_unnamed(rows) < rows.len() ==> quoted_name(rows[first_unnamed(rows)]) is None,
        forall|i: int| 0 <= i < first_unnamed(rows) ==> quoted_name(#[trigger] rows[i]) is Some,
    decreases rows.len(),
{
    if rows.len() != 0 && quoted_name(rows[0]) is Some {
        let rest = rows.skip(1);
        lemma_first_unnamed(rest);
        assert forall|i: int| 0 <= i < first_unnamed(rows) implies quoted_name(
            #[trigger] rows[i],
        ) is Some by {
            if i > 0 {
                assert(rows[i] == rest[i - 1]);
            }
        }
    }
}

/// A line without a name that has only lines with names before it is the
/// one that `first_unnamed` gives.
pub proof fn lemma_first_unnamed_is(rows: Seq<Seq<char>>, i: int)
    requires
        0 <= i <= rows.len(),
        i < rows.len() ==> quoted_name(rows[i]) is None,
        forall|j: int| 0 <= j < i ==> quoted_name(#[trigger] rows[j]) is Some,
    ensures
        first_unnamed(rows) == i,
{
    lemma_first_unnamed(rows);
    let f = first_unnamed(rows);
    if f < i {
        assert(quoted_name(rows[f]) is Some);
    }
}

/// A reply is refused for want of a second line if and only if it holds no
/// line break.
pub proof fn lemma_one_line_refused(text: Seq<char>)
    ensures
        !text.contains(LINE_BREAK) <==> decoded(text) == Err::<StatusView, DecodeError>(
            DecodeError::TooFewLines,
        ),
{
    lemma_find(text, LINE_BREAK);
    let at = find(text, LINE_BREAK);
    if at < text.len() {
        assert(text.contains(LINE_BREAK));
        lemma_split_pieces(text.skip(at + 1), LINE_BREAK);
    }
}

/// A name that was found stands in the line between two double quotes, with
/// no double quote before it and none in it, and it is not empty.
pub proof fn lemma_quoted_name_found(line: Seq<char>)
    requires
        quoted_name(line) is Some,
    ensures
        ({
            let name = quoted_name(line).unwrap();
            let open = find(line, QUOTE);
            &&& name.len() > 0
            &&& !name.contains(QUOTE)
            &&& !line.take(open).contains(QUOTE)
            &&& 0 <= open
            &&& open + name.len() + 2 <= line.len()
            &&& line == line.take(open) + seq![QUOTE] + name + seq![QUOTE] + line.skip(
                open + name.len() + 2,
            )
        }),
{
    let open = find(line, QUOTE);
    let rest = line.skip(open + 1);
    let close = find(rest, QUOTE);
    let name = rest.take(close);
    lemma_find(line, QUOTE);
    lemma_find(rest, QUOTE);
    assert forall|i: int| 0 <= i < name.len() implies name[i] != QUOTE by {
        assert(name[i] == rest[i]);
    }
    assert forall|i: int| 0 <= i < open implies line.take(open)[i] != QUOTE by {
        assert(line.take(open)[i] == line[i]);
    }
    assert(rest[close] == line[open + 1 + close]);
    assert(line == line.take(open) + seq![QUOTE] + name + seq![QUOTE] + line.skip(
        open + name.len() + 2,
    ));
}

/// However a line is made of a part without a double quote, a double quote,
/// a name without one that is not empty, a second double quote and a rest,
/// that name is the one that is found.
pub proof fn lemma_quoted_name_of(before: Seq<char>, name: Seq<char>, after: Seq<char>)
    requires
        !before.contains(QUOTE),
        !name.contains(QUOTE),
        name.len() > 0,
    ensures
        quoted_name(before + seq![QUOTE] + name + seq![QUOTE] + after) == Some(name),
{
    let line = before + seq![QUOTE] + name + seq![QUOTE] + after;
    let open = before.len() as int;
    assert forall|j: int| 0 <= j < open implies line[j] != QUOTE by {
        assert(line[j] == before[j]);
        assert(before.contains(before[j]));
    }
    assert(line[open] == QUOTE);
    lemma_find_is(line, QUOTE, open);
    let rest = line.skip(open + 1);
    let close = name.len() as int;
    assert forall|j: int| 0 <= j < close implies rest[j] != QUOTE by {
        assert(rest[j] == name[j]);
        assert(name.contains(name[j]));
    }
    assert(rest[close] == QUOTE);
    lemma_find_is(rest, QUOTE, close);
    assert(rest.take(close) == name);
}

/// Where the name stands in the line `chars[start..end]`.
fn name_span(chars: &[char], start: usize, end: usize) -> (span: Option<(usize, usize)>)
    requires
        start <= end <= chars@.len(),
    ensures
        match span {
            Some((from, to)) => start <= from < to <= end && quoted_name(
                chars@.subrange(start as int, end as int),
            ) == Some(chars@.subrange(from as int, to as int)),
            None => quoted_name(chars@.subrange(start as int, end as int)) is None,
        },
{
    let open = find_char(chars, start, end, QUOTE);
    if open == end {
        return None;
    }
    let close = find_char(chars, open + 1, end, QUOTE);
    proof {
        let line = chars@.subrange(start as int, end as int);
        let rest = line.skip(open - start + 1);
        assert(rest == chars@.subrange(open + 1, end as int));
        assert(rest.take(close - open - 1) == chars@.subrange(open + 1, close as int));
    }
    if close == end || close == open + 1 {
        return None;
    }
    Some((open + 1, close))
}

/// The keys of the line `chars[start..end]`.
fn parse_keys(chars: &[char], start: usize, end: usize) -> (result: Result<ServerKeys, DecodeError>)
    requires
        start <= end <= chars@.len(),
    ensures
        match result {
            Ok(keys) => line_keys(chars@.subrange(start as int, end as int)) == Ok::<
                Map<Seq<char>, Seq<char>>,
                DecodeError,
            >(keys@),
            Err(e) => line_keys(chars@.subrange(start as int, end as int)) == Err::<
                Map<Seq<char>, Seq<char>>,
                DecodeError,
            >(e),
        },
{
    let ghost line = chars@.subrange(start as int, end as int);
    let ghost tokens = key_tokens(line);
    let ghost pairs = key_pairs(tokens);
    let spans = split_spans(chars, start, end, KEY_MARK);
    proof {
        lemma_split_pieces(line, KEY_MARK);
    }
    let count = spans.len() - 1;
    if count == 0 {
        return Err(DecodeError::MissingKey);
    }
    if count % 2 == 1 {
        return Err(DecodeError::MissingValue);
    }
    let mut keys = ServerKeys::new();
    let mut k: usize = 0;
    proof {
        assert(pairs.take(0) == Seq::<(Seq<char>, Seq<char>)>::empty());
    }
    while k < count / 2
        invariant
            start <= end <= chars@.len(),
            line == chars@.subrange(start as int, end as int),
            tokens == key_tokens(line),
            pairs == key_pairs(tokens),
            spans@.len() == count + 1,
            count % 2 == 0,
            spans_within(spans@, start as int, end as int),
            pieces(chars@, spans@) == split(line, KEY_MARK),
            k <= count / 2,
            keys@ == map_of(pairs.take(k as int)),
        decreases count / 2 - k,
    {
        let key_span = spans[2 * k + 1];
        let value_span = spans[2 * k + 2];
        let key = string_of(chars, key_span.0, key_span.1);
        let value = string_of(chars, value_span.0, value_span.1);
        proof {
            let cut = pieces(chars@, spans@);
            assert(tokens[2 * k] == cut[2 * k + 1]);
            assert(tokens[2 * k + 1] == cut[2 * k + 2]);
            assert(pairs[k as int] == (key@, value@));
            let next = pairs.take(k + 1);
            assert(next.drop_last() == pairs.take(k as int));
            assert(next.last() == pairs[k as int]);
        }
        keys.insert(key, value);
        k += 1;
    }
    proof {
        assert(pairs.take(k as int) == pairs);
    }
    Ok(keys)
}

impl Q3Client {
    /// The name on the player's line `get_status_player`, if it holds one.
    pub fn parse_player_name(get_status_player: &str) -> (name: Option<String>)
        ensures
            match name {
                Some(n) => quoted_name(get_status_player@) == Some(n@),
                None => quoted_name(get_status_player@) is None,
            },
    {
        let chars = chars_of(get_status_player);
        proof {
            assert(chars@.subrange(0, chars@.len() as int) == get_status_player@);
        }
        match name_span(chars.as_slice(), 0, chars.len()) {
            Some((from, to)) => Some(string_of(chars.as_slice(), from, to)),
            None => None,
        }
    }
}

/// Decodes the text of a reply.
///
/// The result is `decoded(text)`: the status where `decoded` gives one, with
/// every player well formed, and else the error that it gives.
#[verifier::loop_isolation(false)]
pub fn parse_status(text: &str) -> (result: Result<ServerStatus, DecodeError>)
    ensures
        match result {
            Ok(status) => decoded(text@) == Ok::<StatusView, DecodeError>(status@) && status.wf(),
            Err(e) => decoded(text@) == Err::<StatusView, DecodeError>(e),
        },
{
    let chars = chars_of(text);
    let lines = split_spans(chars.as_slice(), 0, chars.len(), LINE_BREAK);
    let ghost cut = split(text@, LINE_BREAK);
    let ghost rows = player_rows(cut);
    proof {
        assert(chars@.subrange(0, chars@.len() as int) == text@);
        lemma_split_pieces(text@, LINE_BREAK);
        assert(pieces(chars@, lines@).len() == lines@.len());
    }
    if lines.len() < 2 {
        return Err(DecodeError::TooFewLines);
    }
    proof {
        assert(cut[1] == chars@.subrange(lines@[1].0 as int, lines@[1].1 as int));
    }
    let keys = match parse_keys(chars.as_slice(), lines[1].0, lines[1].1) {
        Ok(keys) => keys,
        Err(e) => {
            return Err(e);
        },
    };
    let mut players: Vec<Player> = Vec::new();
    let last = lines.len() - 1;
    let mut i: usize = 2;
    while i < last
        invariant
            2 <= i,
            i <= last || i == 2,
            players@.len() == i - 2,
            forall|j: int|
                0 <= j < i - 2 ==> quoted_name(#[trigger] rows[j]) is Some && players@[j]@
                    == named_player(quoted_name(rows[j]).unwrap()) && players@[j].wf(),
        decreases last - i,
    {
        proof {
            assert(rows[i - 2] == cut[i as int]);
            assert(cut[i as int] == chars@.subrange(lines@[i as int].0 as int, lines@[i as int].1 as int));
        }
        match name_span(chars.as_slice(), lines[i].0, lines[i].1) {
            None => {
                proof {
                    lemma_first_unnamed_is(rows, i - 2);
                }
                return Err(DecodeError::PlayerName { line: i });
            },
            Some((from, to)) => {
                let name = string_of(chars.as_slice(), from, to);
                let clean_name = sanitize_span(chars.as_slice(), from, to);
                players.push(Player { name, clean_name });
            },
        }
        i += 1;
    }
    let status = ServerStatus { keys, players };
    proof {
        lemma_first_unnamed_is(rows, rows.len() as int);
        assert forall|j: int| 0 <= j < status.players@.len() implies (
        #[trigger] status.players@[j]).wf() by {
            assert(quoted_name(rows[j]) is Some);
        }
        assert(status@.players == Seq::new(
            rows.len(),
            |i: int| named_player(quoted_name(rows[i]).unwrap()),
        ));
    }
    Ok(status)
}

/// The text that a reply stands for: its bytes read as UTF-8, with the
/// replacement character U+FFFD in place of what is not UTF-8.
pub uninterp spec fn lossy_text(reply: Seq<u8>) -> Seq<char>;

/// The text of `reply`.
///
/// Trusted: `String::from_utf8_lossy`. It reads the bytes as UTF-8 and puts
/// U+FFFD in place of each part that is not UTF-8, so the text depends on the
/// bytes alone, and bytes that are UTF-8 throughout give the text that they
/// encode.
#[verifier::external_body]
fn text_of(reply: &[u8]) -> (text: String)
    ensures
        text@ == lossy_text(reply@),
        valid_utf8(reply@) ==> text@ == decode_utf8(reply@),
{
    String::from_utf8_lossy(reply).into_owned()
}

/// Decodes a reply as it came from the server.
///
/// The bytes are read as text, whatever they hold, and the text is decoded as
/// `parse_status` decodes it. Of bytes that are UTF-8 throughout, the text is
/// the one that they encode.
pub fn decode_status(reply: &[u8]) -> (result: Result<ServerStatus, DecodeError>)
    ensures
        match result {
            Ok(status) => decoded(lossy_text(reply@)) == Ok::<StatusView, DecodeError>(status@)
                && status.wf(),
            Err(e) => decoded(lossy_text(reply@)) == Err::<StatusView, DecodeError>(e),
        },
        valid_utf8(reply@) ==> match result {
            Ok(status) => decoded(decode_utf8(reply@)) == Ok::<StatusView, DecodeError>(status@),
            Err(e) => decoded(decode_utf8(reply@)) == Err::<StatusView, DecodeError>(e),
        },
{
    let text = text_of(reply);
    parse_status(text.as_str())
}

} // verus!
