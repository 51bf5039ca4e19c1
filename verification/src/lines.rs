//! The lines of a text.
//!
//! A line ends with a newline, or with the text. The newline is no part of
//! the line, and neither is a carriage return that stands right before it.

use vstd::prelude::*;
use vstd::std_specs::iter::IteratorSpec;
use vstd::string::*;
use crate::config::texts;
use crate::emit::{joined, plain_line};

verus! {

/// `String::push` puts one character behind the others.
pub assume_specification[ String::push ](s: &mut String, c: char)
    ensures
        final(s)@ == old(s)@.push(c),
;

/// The position of the first newline in `s`, or the length of `s` if it has none.
pub open spec fn first_newline(s: Seq<char>) -> int
    decreases s.len(),
{
    if s.len() == 0 || s[0] == '\n' {
        0
    } else {
        1 + first_newline(s.drop_first())
    }
}

/// `line` without the carriage return at its end, if it has one there.
pub open spec fn without_cr(line: Seq<char>) -> Seq<char> {
    if line.len() > 0 && line.last() == '\r' {
        line.drop_last()
    } else {
        line
    }
}

/// The lines of `text`, without their line endings. A text that does not
/// end with a newline has what follows its last newline as its last line.
pub open spec fn lines_of(text: Seq<char>) -> Seq<Seq<char>>
    decreases text.len(),
{
    if text.len() == 0 {
        Seq::empty()
    } else {
        let k = first_newline(text);
        if k < 0 || k >= text.len() {
            seq![text]
        } else {
            seq![without_cr(text.take(k))] + lines_of(text.skip(k + 1))
        }
    }
}

/// Whether a carriage return stands right before a newline somewhere in `text`.
pub open spec fn has_crlf(text: Seq<char>) -> bool {
    exists|i: int| 0 <= i < text.len() - 1 && text[i] == '\r' && #[trigger] text[i + 1] == '\n'
}

/// Whether `text` is empty or ends with a newline.
pub open spec fn ends_lines(text: Seq<char>) -> bool {
    text.len() == 0 || text.last() == '\n'
}

/// The first newline of a text stands behind characters that are none.
pub proof fn lemma_first_newline(s: Seq<char>)
    ensures
        0 <= first_newline(s) <= s.len(),
        forall|i: int| 0 <= i < first_newline(s) ==> s[i] != '\n',
        first_newline(s) < s.len() ==> s[first_newline(s)] == '\n',
    decreases s.len(),
{
    if s.len() > 0 && s[0] != '\n' {
        let rest = s.drop_first();
        lemma_first_newline(rest);
        assert forall|i: int| 0 <= i < first_newline(s) implies s[i] != '\n' by {
            if i > 0 {
                assert(s[i] == rest[i - 1]);
            }
        }
        if first_newline(s) < s.len() {
            assert(s[first_newline(s)] == rest[first_newline(rest)]);
        }
    }
}

proof fn lemma_first_newline_behind(head: Seq<char>, tail: Seq<char>)
    requires
        forall|i: int| 0 <= i < head.len() ==> head[i] != '\n',
    ensures
        first_newline(head + seq!['\n'] + tail) == head.len(),
        first_newline(head) == head.len(),
    decreases head.len(),
{
    let s = head + seq!['\n'] + tail;
    if head.len() == 0 {
        assert(s[0] == '\n');
    } else {
        assert(s[0] == head[0]);
        assert(s.drop_first() =~= head.drop_first() + seq!['\n'] + tail);
        lemma_first_newline_behind(head.drop_first(), tail);
    }
}

/// A text that begins with a line and its newline has that line as its
/// first, and the lines of the rest behind it.
pub proof fn lemma_lines_of_first(head: Seq<char>, tail: Seq<char>)
    requires
        forall|i: int| 0 <= i < head.len() ==> head[i] != '\n',
    ensures
        lines_of(head + seq!['\n'] + tail) == seq![without_cr(head)] + lines_of(tail),
{
    let s = head + seq!['\n'] + tail;
    lemma_first_newline_behind(head, tail);
    assert(s.take(head.len() as int) =~= head);
    assert(s.skip(head.len() as int + 1) =~= tail);
}

/// A text without a newline is one line, or none if it is empty.
pub proof fn lemma_lines_of_last(text: Seq<char>)
    requires
        forall|i: int| 0 <= i < text.len() ==> text[i] != '\n',
    ensures
        lines_of(text) == if text.len() == 0 {
            Seq::<Seq<char>>::empty()
        } else {
            seq![text]
        },
{
    lemma_first_newline_behind(text, Seq::empty());
}

/// No line of a text holds a newline.
pub proof fn lemma_lines_hold_no_newline(text: Seq<char>)
    ensures
        forall|i: int, j: int|
            0 <= i < lines_of(text).len() && 0 <= j < lines_of(text)[i].len() ==> (
            #[trigger] lines_of(text)[i][j]) != '\n',
    decreases text.len(),
{
    if text.len() > 0 {
        lemma_first_newline(text);
        let k = first_newline(text);
        if k < text.len() {
            let rest = text.skip(k + 1);
            lemma_lines_hold_no_newline(rest);
            let first = without_cr(text.take(k));
            assert forall|i: int, j: int|
                0 <= i < lines_of(text).len() && 0 <= j < lines_of(text)[i].len() implies (
            #[trigger] lines_of(text)[i][j]) != '\n' by {
                if i == 0 {
                    assert(lines_of(text)[0] == first);
                    assert(first[j] == text[j]);
                } else {
                    assert(lines_of(text)[i] == lines_of(rest)[i - 1]);
                }
            }
        }
    }
}

proof fn lemma_joined_behind(first: Seq<char>, rest: Seq<Seq<char>>)
    ensures
        joined(seq![first] + rest) == plain_line(first) + joined(rest),
{
    let lines = seq![first] + rest;
    let written = Seq::new(lines.len(), |i: int| plain_line(lines[i]));
    let behind = Seq::new(rest.len(), |i: int| plain_line(rest[i]));
    assert(written.first() == plain_line(first));
    assert(written.drop_first() =~= behind);
}

/// A text that ends with a newline, or is empty, and in which no carriage
/// return stands before a newline, is its lines, each followed by a newline.
pub proof fn lemma_joined_lines_of(text: Seq<char>)
    requires
        ends_lines(text),
        !has_crlf(text),
    ensures
        joined(lines_of(text)) == text,
    decreases text.len(),
{
    if text.len() == 0 {
        assert(joined(lines_of(text)) =~= text);
    } else {
        lemma_first_newline(text);
        let k = first_newline(text);
        assert(k < text.len()) by {
            if k >= text.len() {
                assert(text[text.len() - 1] != '\n');
            }
        }
        let line = text.take(k);
        let rest = text.skip(k + 1);
        assert(without_cr(line) == line) by {
            if line.len() > 0 && line.last() == '\r' {
                assert(text[k - 1] == '\r' && text[k - 1 + 1] == '\n');
            }
        }
        assert(ends_lines(rest)) by {
            if rest.len() > 0 {
                assert(rest.last() == text.last());
            }
        }
        assert(!has_crlf(rest)) by {
            if has_crlf(rest) {
                let i = choose|i: int|
                    0 <= i < rest.len() - 1 && rest[i] == '\r' && #[trigger] rest[i + 1] == '\n';
                assert(text[k + 1 + i] == '\r' && text[k + 1 + i + 1] == '\n');
            }
        }
        lemma_joined_lines_of(rest);
        lemma_joined_behind(line, lines_of(rest));
        assert(plain_line(line) + rest =~= text);
    }
}

/// What has been read of the current line: `current`, and behind it a
/// carriage return where one is held back.
pub open spec fn pending(current: Seq<char>, held_cr: bool) -> Seq<char> {
    if held_cr {
        current.push('\r')
    } else {
        current
    }
}

/// Splits `text` into its lines.
pub fn split_lines(text: &str) -> (lines: Vec<String>)
    ensures
        texts(lines@) == lines_of(text@),
{
    broadcast use vstd::string::group_string_axioms;

    let mut lines: Vec<String> = Vec::new();
    let mut current = String::new();
    let mut held_cr = false;
    let mut chars = text.chars();
    loop
        invariant
            chars.obeys_prophetic_iter_laws(),
            chars.decrease() is Some,
            texts(lines@) + lines_of(pending(current@, held_cr) + chars.remaining()) == lines_of(text@),
            forall|i: int| 0 <= i < current@.len() ==> current@[i] != '\n',
            !held_cr && current@.len() > 0 ==> current@.last() != '\r',
        ensures
            chars.remaining().len() == 0,
            texts(lines@) + lines_of(pending(current@, held_cr)) == lines_of(text@),
            forall|i: int| 0 <= i < current@.len() ==> current@[i] != '\n',
        decreases chars.decrease()->0,
    {
        let ghost before = chars.remaining();
        let ghost so_far = pending(current@, held_cr);
        let ghost done = texts(lines@);
        match chars.next() {
            None => {
                assert(so_far + before =~= so_far);
                break ;
            },
            Some(c) => {
                let ghost rest = chars.remaining();
                assert(before =~= seq![c] + rest);
                if c == '\n' {
                    proof {
                        assert(so_far + before =~= so_far + seq!['\n'] + rest);
                        lemma_lines_of_first(so_far, rest);
                        assert(without_cr(so_far) == current@);
                    }
                    lines.push(current);
                    current = String::new();
                    held_cr = false;
                    proof {
                        assert(texts(lines@) =~= done + seq![without_cr(so_far)]);
                        assert(pending(current@, held_cr) + rest =~= rest);
                        assert(texts(lines@) + lines_of(rest) =~= done + (seq![without_cr(so_far)]
                            + lines_of(rest)));
                    }
                } else {
                    if held_cr {
                        current.push('\r');
                    }
                    if c == '\r' {
                        held_cr = true;
                    } else {
                        held_cr = false;
                        current.push(c);
                    }
                    assert(pending(current@, held_cr) + rest =~= so_far + before);
                }
            },
        }
    }
    let ghost so_far = pending(current@, held_cr);
    let ghost done = texts(lines@);
    if held_cr {
        current.push('\r');
    }
    proof {
        assert(current@ == so_far);
        lemma_lines_of_last(so_far);
    }
    if !current.as_str().is_empty() {
        lines.push(current);
        assert(texts(lines@) =~= done + seq![so_far]);
    } else {
        assert(done + Seq::<Seq<char>>::empty() =~= done);
    }
    lines
}

} // verus!
