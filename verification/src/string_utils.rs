//! Colour codes in display names.
//!
//! A name may carry colour codes: a caret and one character behind it that
//! selects the colour. Two carets in a row stand for a caret that is meant
//! to be shown.

use vstd::prelude::*;
use vstd::utf8::{encode_scalar, encode_utf8};
use crate::text::{chars_of, push_char};

verus! {

/// The character that starts a colour code.
pub const CARET: char = '^';

/// Whether `s` begins with a colour code: a caret that no second caret follows.
pub open spec fn starts_with_code(s: Seq<char>) -> bool {
    s.len() >= 1 && s[0] == CARET && !(s.len() >= 2 && s[1] == CARET)
}

/// `s` without its colour codes, read from the left.
///
/// A caret that no caret follows is dropped together with the character
/// behind it, if there is one. Every other character is kept, so of two
/// carets in a row the first is kept and the second is read next: it is kept
/// too if a third caret follows, and starts a colour code if not.
pub open spec fn sanitized(s: Seq<char>) -> Seq<char>
    decreases s.len(),
{
    if s.len() == 0 {
        Seq::empty()
    } else if starts_with_code(s) {
        if s.len() >= 2 {
            sanitized(s.skip(2))
        } else {
            Seq::empty()
        }
    } else {
        seq![s[0]] + sanitized(s.skip(1))
    }
}

/// Whether the character at `i` stays when the colour codes go: a caret
/// stays if a caret follows it, any other character if no caret stands
/// before it.
pub open spec fn keeps(s: Seq<char>, i: int) -> bool {
    if s[i] == CARET {
        i + 1 < s.len() && s[i + 1] == CARET
    } else {
        i == 0 || s[i - 1] != CARET
    }
}

/// The characters of `s` from `from` on that stay, in their order.
pub open spec fn kept_from(s: Seq<char>, from: int) -> Seq<char>
    decreases s.len() - from,
{
    if from < 0 || from >= s.len() {
        Seq::empty()
    } else if keeps(s, from) {
        seq![s[from]] + kept_from(s, from + 1)
    } else {
        kept_from(s, from + 1)
    }
}

/// Whether two carets stand side by side somewhere in `s`.
pub open spec fn has_double_caret(s: Seq<char>) -> bool {
    exists|i: int| 0 <= i && i + 1 < s.len() && s[i] == CARET && #[trigger] s[i + 1] == CARET
}

/// Removing colour codes never makes a name longer.
pub proof fn lemma_sanitized_len(s: Seq<char>)
    ensures
        sanitized(s).len() <= s.len(),
    decreases s.len(),
{
    if s.len() == 0 {
    } else if starts_with_code(s) {
        if s.len() >= 2 {
            lemma_sanitized_len(s.skip(2));
        }
    } else {
        lemma_sanitized_len(s.skip(1));
    }
}

/// A name without a caret holds no colour code and stays as it is.
pub proof fn lemma_sanitized_plain(s: Seq<char>)
    requires
        !s.contains(CARET),
    ensures
        sanitized(s) == s,
    decreases s.len(),
{
    if s.len() > 0 {
        let rest = s.skip(1);
        assert(s[0] != CARET);
        assert forall|i: int| 0 <= i < rest.len() implies rest[i] != CARET by {
            assert(rest[i] == s[i + 1]);
        }
        lemma_sanitized_plain(rest);
        assert(s == seq![s[0]] + rest);
    }
}

/// A caret is left in the result only where two carets stood side by side.
pub proof fn lemma_sanitized_caret(s: Seq<char>)
    requires
        !has_double_caret(s),
    ensures
        !sanitized(s).contains(CARET),
    decreases s.len(),
{
    if s.len() == 0 {
    } else if starts_with_code(s) {
        if s.len() >= 2 {
            let rest = s.skip(2);
            assert(!has_double_caret(rest)) by {
                if has_double_caret(rest) {
                    let i = choose|i: int|
                        0 <= i && i + 1 < rest.len() && rest[i] == CARET && #[trigger] rest[i + 1]
                            == CARET;
                    assert(s[i + 2] == CARET && s[i + 2 + 1] == CARET);
                }
            }
            lemma_sanitized_caret(rest);
        }
    } else {
        let rest = s.skip(1);
        assert(!has_double_caret(rest)) by {
            if has_double_caret(rest) {
                let i = choose|i: int|
                    0 <= i && i + 1 < rest.len() && rest[i] == CARET && #[trigger] rest[i + 1]
                        == CARET;
                assert(s[i + 1] == CARET && s[i + 1 + 1] == CARET);
            }
        }
        lemma_sanitized_caret(rest);
        if s[0] == CARET {
            let first: int = 0;
            assert(s[first] == CARET && s[first + 1] == CARET);
        }
        let out = sanitized(rest);
        assert forall|k: int| 0 <= k < sanitized(s).len() implies sanitized(s)[k] != CARET by {
            if k > 0 {
                assert(sanitized(s)[k] == out[k - 1]);
            }
        }
    }
}

/// Reading from a place where no colour code is cut in two gives the
/// characters that stay from there on.
proof fn lemma_sanitized_from(s: Seq<char>, from: int)
    requires
        0 <= from <= s.len(),
        from == 0 || from == s.len() || s[from] == CARET || s[from - 1] != CARET,
    ensures
        sanitized(s.skip(from)) == kept_from(s, from),
    decreases s.len() - from,
{
    let rest = s.skip(from);
    if from < s.len() {
        assert(rest[0] == s[from]);
        if starts_with_code(rest) {
            assert(!keeps(s, from));
            assert(kept_from(s, from) == kept_from(s, from + 1));
            if rest.len() >= 2 {
                assert(rest[1] == s[from + 1]);
                assert(rest.skip(2) == s.skip(from + 2));
                lemma_sanitized_from(s, from + 2);
                assert(!keeps(s, from + 1));
                assert(kept_from(s, from + 1) == kept_from(s, from + 2));
            } else {
                assert(kept_from(s, from + 1) == Seq::<char>::empty());
            }
        } else {
            if rest[0] == CARET {
                assert(rest[1] == s[from + 1]);
            }
            assert(keeps(s, from));
            assert(rest.skip(1) == s.skip(from + 1));
            lemma_sanitized_from(s, from + 1);
        }
    }
}

/// Which characters stay does not hang on the reading: a caret stays if and
/// only if a caret follows it, and any other character if and only if no
/// caret stands before it.
pub proof fn lemma_sanitized_keeps(s: Seq<char>)
    ensures
        sanitized(s) == kept_from(s, 0),
{
    assert(s.skip(0) == s);
    lemma_sanitized_from(s, 0);
}

/// Removing colour codes never makes a name take more bytes in UTF-8.
pub proof fn lemma_sanitized_bytes(s: Seq<char>)
    ensures
        encode_utf8(sanitized(s)).len() <= encode_utf8(s).len(),
    decreases s.len(),
{
    if s.len() == 0 {
    } else if starts_with_code(s) {
        let rest = s.drop_first();
        assert(encode_utf8(s).len() >= encode_utf8(rest).len());
        if s.len() >= 2 {
            assert(rest.drop_first() == s.skip(2));
            assert(encode_utf8(rest).len() >= encode_utf8(rest.drop_first()).len());
            lemma_sanitized_bytes(s.skip(2));
        } else {
            assert(encode_utf8(Seq::<char>::empty()).len() == 0);
        }
    } else {
        let out = sanitized(s);
        assert(out[0] == s[0]);
        assert(s.drop_first() == s.skip(1));
        assert(out.drop_first() == sanitized(s.skip(1)));
        lemma_sanitized_bytes(s.skip(1));
        assert(encode_utf8(out) == encode_scalar(out[0] as u32) + encode_utf8(out.drop_first()));
    }
}

/// `chars[start..end]` without its colour codes.
pub fn sanitize_span(chars: &[char], start: usize, end: usize) -> (cleaned: String)
    requires
        start <= end <= chars@.len(),
    ensures
        cleaned@ == sanitized(chars@.subrange(start as int, end as int)),
{
    let ghost name = chars@.subrange(start as int, end as int);
    let mut cleaned = String::new();
    let mut i: usize = start;
    proof {
        assert(name.skip(0) == name);
        assert(cleaned@ + sanitized(name) == sanitized(name));
    }
    while i < end
        invariant
            start <= i <= end <= chars@.len(),
            name == chars@.subrange(start as int, end as int),
            sanitized(name) == cleaned@ + sanitized(name.skip(i - start)),
        decreases end - i,
    {
        let ghost rest = name.skip(i - start);
        let c = chars[i];
        let last = i + 1 == end;
        if c == CARET && (last || chars[i + 1] != CARET) {
            proof {
                assert(starts_with_code(rest));
                if !last {
                    assert(rest.skip(2) == name.skip(i + 2 - start));
                } else {
                    assert(sanitized(name.skip(i + 1 - start)) == Seq::<char>::empty());
                }
            }
            i = if last {
                i + 1
            } else {
                i + 2
            };
        } else {
            proof {
                assert(!starts_with_code(rest));
                assert(rest.skip(1) == name.skip(i + 1 - start));
            }
            push_char(&mut cleaned, c);
            i = i + 1;
        }
    }
    cleaned
}

/// Removes the colour codes from `orig_string`.
pub fn sanitize_string(orig_string: &str) -> (cleaned_string: String)
    ensures
        cleaned_string@ == sanitized(orig_string@),
        cleaned_string@.len() <= orig_string@.len(),
        encode_utf8(cleaned_string@).len() <= encode_utf8(orig_string@).len(),
        !orig_string@.contains(CARET) ==> cleaned_string@ == orig_string@,
        !has_double_caret(orig_string@) ==> !cleaned_string@.contains(CARET),
{
    let chars = chars_of(orig_string);
    proof {
        assert(chars@.subrange(0, chars@.len() as int) == orig_string@);
        lemma_sanitized_len(orig_string@);
        lemma_sanitized_bytes(orig_string@);
        if !orig_string@.contains(CARET) {
            lemma_sanitized_plain(orig_string@);
        }
        if !has_double_caret(orig_string@) {
            lemma_sanitized_caret(orig_string@);
        }
    }
    sanitize_span(chars.as_slice(), 0, chars.len())
}

} // verus!
