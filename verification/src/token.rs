//! Normalisation of one header token: the whitespace around it, an optional
//! layer of double quotes with backslash escapes, and an optional layer of
//! square brackets.

use std::borrow::Cow;
use vstd::prelude::*;
use vstd::std_specs::iter::IteratorSpec;

verus! {

/// Whether a character is whitespace, as `char::is_whitespace` tells it: the
/// characters with the Unicode property `White_Space`.
pub uninterp spec fn white_space(c: char) -> bool;

/// `char::is_whitespace` tells whether a character has the property
/// `White_Space`, which depends on the character alone.
pub assume_specification[ char::is_whitespace ](c: char) -> (r: bool)
    ensures
        r == white_space(c),
;

/// A text without the whitespace it opens with.
pub open spec fn trimmed_start(text: Seq<char>) -> Seq<char>
    decreases text.len(),
{
    if text.len() > 0 && white_space(text.first()) {
        trimmed_start(text.drop_first())
    } else {
        text
    }
}

/// A text without the whitespace it ends with.
pub open spec fn trimmed_end(text: Seq<char>) -> Seq<char>
    decreases text.len(),
{
    if text.len() > 0 && white_space(text.last()) {
        trimmed_end(text.drop_last())
    } else {
        text
    }
}

/// A text without its leading and trailing whitespace.
pub open spec fn trimmed(text: Seq<char>) -> Seq<char> {
    trimmed_end(trimmed_start(text))
}

/// Skipping a run of leading whitespace that ends at `start` is trimming the
/// start.
proof fn lemma_trimmed_start(text: Seq<char>, start: int)
    requires
        0 <= start <= text.len(),
        forall|i: int| 0 <= i < start ==> white_space(#[trigger] text[i]),
        start < text.len() ==> !white_space(text[start]),
    ensures
        trimmed_start(text) == text.skip(start),
    decreases start,
{
    if start == 0 {
        assert(text.skip(0) == text);
    } else {
        assert(white_space(text[0]));
        lemma_trimmed_start(text.drop_first(), start - 1);
        assert(text.drop_first().skip(start - 1) == text.skip(start));
    }
}

/// Cutting a run of trailing whitespace that begins at `end` is trimming the
/// end.
proof fn lemma_trimmed_end(text: Seq<char>, end: int)
    requires
        0 <= end <= text.len(),
        forall|i: int| end <= i < text.len() ==> white_space(#[trigger] text[i]),
        end > 0 ==> !white_space(text[end - 1]),
    ensures
        trimmed_end(text) == text.take(end),
    decreases text.len() - end,
{
    if end == text.len() {
        assert(text.take(end) == text);
    } else {
        assert(white_space(text[text.len() - 1]));
        lemma_trimmed_end(text.drop_last(), end);
        assert(text.drop_last().take(end) == text.take(end));
    }
}

/// Removes the leading and the trailing whitespace of `text`.
pub fn trim(text: &str) -> (r: &str)
    ensures
        r@ == trimmed(text@),
{
    let n = text.unicode_len();
    let mut chars = text.chars();
    let mut index: usize = 0;
    let mut start: usize = 0;
    let mut end: usize = 0;
    loop
        invariant
            chars.obeys_prophetic_iter_laws(),
            chars.decrease() is Some,
            n == text@.len(),
            index <= n,
            chars.remaining() == text@.skip(index as int),
            end == 0 ==> start == 0,
            end == 0 ==> forall|i: int| 0 <= i < index ==> white_space(#[trigger] text@[i]),
            end > 0 ==> {
                &&& start < end <= index
                &&& !white_space(text@[start as int])
                &&& !white_space(text@[end - 1])
                &&& forall|i: int| 0 <= i < start ==> white_space(#[trigger] text@[i])
                &&& forall|i: int| end <= i < index ==> white_space(#[trigger] text@[i])
            },
        ensures
            index == n,
        decreases chars.decrease()->0,
    {
        match chars.next() {
            None => {
                break ;
            },
            Some(c) => {
                assert(c == text@[index as int]);
                assert(chars.remaining() == text@.skip(index + 1));
                if !c.is_whitespace() {
                    if end == 0 {
                        start = index;
                    }
                    end = index + 1;
                }
                index += 1;
            },
        }
    }
    proof {
        if end == 0 {
            lemma_trimmed_start(text@, n as int);
        } else {
            let rest = text@.skip(start as int);
            lemma_trimmed_start(text@, start as int);
            lemma_trimmed_end(rest, end - start);
            assert(rest.take(end - start) == text@.subrange(start as int, end as int));
        }
    }
    text.substring_char(start, end)
}

/// The text of a quoted string whose opening quote has already been consumed:
/// a backslash makes the character after it literal, and the first quote that
/// is not escaped ends the text. What follows that quote is dropped, and so is
/// a backslash with nothing after it.
pub open spec fn quoted_text(body: Seq<char>) -> Seq<char>
    decreases body.len(),
{
    if body.len() == 0 || body[0] == '"' {
        Seq::empty()
    } else if body[0] == '\\' {
        if body.len() == 1 {
            Seq::empty()
        } else {
            seq![body[1]] + quoted_text(body.skip(2))
        }
    } else {
        seq![body[0]] + quoted_text(body.skip(1))
    }
}

/// A token with one layer of double quotes removed, if it opens with one.
pub open spec fn unquoted(token: Seq<char>) -> Seq<char> {
    if token.len() > 0 && token[0] == '"' {
        quoted_text(token.skip(1))
    } else {
        token
    }
}

/// A token with one layer of square brackets removed, if it has one.
pub open spec fn unbracketed(token: Seq<char>) -> Seq<char> {
    if token.len() > 0 && token.first() == '[' && token.last() == ']' {
        token.subrange(1, token.len() - 1)
    } else {
        token
    }
}

/// A text with a backslash put before each of its quotes and backslashes.
pub open spec fn escaped(text: Seq<char>) -> Seq<char>
    decreases text.len(),
{
    if text.len() == 0 {
        Seq::empty()
    } else if text[0] == '"' || text[0] == '\\' {
        seq!['\\', text[0]] + escaped(text.skip(1))
    } else {
        seq![text[0]] + escaped(text.skip(1))
    }
}

/// A text written as a quoted string.
pub open spec fn quoted(text: Seq<char>) -> Seq<char> {
    seq!['"'] + escaped(text) + seq!['"']
}

/// A text written between square brackets.
pub open spec fn bracketed(text: Seq<char>) -> Seq<char> {
    seq!['['] + text + seq![']']
}

proof fn lemma_quoted_text_of_escaped(text: Seq<char>, rest: Seq<char>)
    ensures
        quoted_text(escaped(text) + seq!['"'] + rest) == text,
    decreases text.len(),
{
    let body = escaped(text) + seq!['"'] + rest;
    if text.len() == 0 {
        assert(body[0] == '"');
    } else {
        let tail = escaped(text.skip(1)) + seq!['"'] + rest;
        lemma_quoted_text_of_escaped(text.skip(1), rest);
        if text[0] == '"' || text[0] == '\\' {
            assert(body[0] == '\\' && body[1] == text[0]);
            assert(body.skip(2) == tail);
        } else {
            assert(body[0] == text[0]);
            assert(body.skip(1) == tail);
        }
        assert(seq![text[0]] + text.skip(1) == text);
    }
}

/// Quoting round-trips: taking the quotes off a quoted string gives back the
/// text that was quoted, whatever it holds, and whatever follows the closing
/// quote is dropped.
pub proof fn lemma_unquoted_of_quoted(text: Seq<char>, rest: Seq<char>)
    ensures
        unquoted(quoted(text) + rest) == text,
{
    let token = quoted(text) + rest;
    assert(token[0] == '"');
    assert(token.skip(1) == escaped(text) + seq!['"'] + rest);
    lemma_quoted_text_of_escaped(text, rest);
}

/// Taking the brackets off a bracketed text gives back the text.
pub proof fn lemma_unbracketed_of_bracketed(text: Seq<char>)
    ensures
        unbracketed(bracketed(text)) == text,
{
    let token = bracketed(text);
    assert(token.first() == '[' && token.last() == ']');
    assert(token.subrange(1, token.len() - 1) == text);
}

/// `String::push` appends one character to the end of the string.
pub assume_specification[ String::push ](s: &mut String, c: char)
    ensures
        final(s)@ == old(s)@.push(c),
;

/// Removes one layer of double quotes from `x`, resolving backslash escapes.
/// A token that does not open with a quote is handed back as it is, borrowed.
pub fn maybe_quoted(x: &str) -> (r: Cow<'_, str>)
    ensures
        r@ == unquoted(x@),
        r is Borrowed <==> !(x@.len() > 0 && x@[0] == '"'),
{
    let mut chars = x.chars();
    let first = chars.next();
    if first != Some('"') {
        return Cow::Borrowed(x);
    }
    let mut s = String::new();
    let mut after_backslash = false;
    loop
        invariant_except_break
            !after_backslash ==> unquoted(x@) == s@ + quoted_text(chars.remaining()),
            after_backslash ==> unquoted(x@) == s@ + quoted_text(seq!['\\'] + chars.remaining()),
        invariant
            chars.obeys_prophetic_iter_laws(),
            chars.decrease() is Some,
        ensures
            unquoted(x@) == s@,
        decreases chars.decrease()->0,
    {
        let ghost rest = chars.remaining();
        let ghost pending = seq!['\\'] + rest;
        match chars.next() {
            None => {
                assert(pending.len() == 1);
                break ;
            },
            Some(c) => {
                assert(rest.skip(1) == chars.remaining());
                assert(pending.skip(2) == chars.remaining());
                if after_backslash {
                    assert(quoted_text(pending) == seq![c] + quoted_text(chars.remaining()));
                    s.push(c);
                    after_backslash = false;
                } else if c == '"' {
                    break ;
                } else if c == '\\' {
                    assert(seq!['\\'] + chars.remaining() == rest);
                    after_backslash = true;
                } else {
                    s.push(c);
                }
            },
        }
    }
    Cow::Owned(s)
}

/// Removes one layer of square brackets from `x` where it both opens with `[`
/// and closes with `]`.
pub fn maybe_bracketed(x: &str) -> (r: &str)
    ensures
        r@ == unbracketed(x@),
{
    let n = x.unicode_len();
    if n > 0 && x.get_char(0) == '[' && x.get_char(n - 1) == ']' {
        x.substring_char(1, n - 1)
    } else {
        x
    }
}

} // verus!
