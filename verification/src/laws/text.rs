//! Trimming, splitting and ordering texts.

use crate::text::{
    is_word, lemma_lines_of_line, lemma_strip_end, lemma_strip_start, lemma_words_concat,
    lemma_words_of_word, lines, mark_set, occurs, occurs_at, strip, strip_end, strip_start,
    text_before, trimmed, white_set, white_space, words,
};
use vstd::prelude::*;

verus! {

/// White space is the 25 characters that Unicode counts as such, by their code points.
pub proof fn white_space_is_that_of_unicode(c: char)
    ensures
        white_space(c) <==> {
            let code = c as u32;
            ||| code == 0x9 || code == 0xa || code == 0xb || code == 0xc || code == 0xd
            ||| code == 0x20 || code == 0x85 || code == 0xa0 || code == 0x1680
            ||| code == 0x2000 || code == 0x2001 || code == 0x2002 || code == 0x2003
            ||| code == 0x2004 || code == 0x2005 || code == 0x2006 || code == 0x2007
            ||| code == 0x2008 || code == 0x2009 || code == 0x200a || code == 0x2028
            ||| code == 0x2029 || code == 0x202f || code == 0x205f || code == 0x3000
        },
{
}

/// The part of a text from `i` to `j` is all that is left when the characters in `set`
/// are taken off both ends.
pub open spec fn inside_margins(
    text: Seq<char>,
    set: spec_fn(char) -> bool,
    i: int,
    j: int,
) -> bool {
    &&& 0 <= i <= j <= text.len()
    &&& forall|k: int| 0 <= k < i ==> set(#[trigger] text[k])
    &&& forall|k: int| j <= k < text.len() ==> set(#[trigger] text[k])
    &&& i < j ==> !set(text[i]) && !set(text[j - 1])
}

/// White space, as a set.
pub open spec fn spaces() -> spec_fn(char) -> bool {
    |c: char| white_space(c)
}

/// Asterisks, commas and colons, as a set.
pub open spec fn marks() -> spec_fn(char) -> bool {
    |c: char| c == '*' || c == ',' || c == ':'
}

proof fn lemma_stripped_start(text: Seq<char>, set: spec_fn(char) -> bool)
    ensures
        forall|k: int|
            0 <= k < text.len() - strip_start(text, set).len() ==> set(#[trigger] text[k]),
    decreases text.len(),
{
    if text.len() > 0 && set(text[0]) {
        let rest = text.drop_first();
        lemma_stripped_start(rest, set);
        assert forall|k: int|
            0 <= k < text.len() - strip_start(text, set).len() implies set(#[trigger] text[k]) by {
            if k > 0 {
                assert(text[k] == rest[k - 1]);
            }
        }
    }
}

proof fn lemma_stripped_end(text: Seq<char>, set: spec_fn(char) -> bool)
    ensures
        forall|k: int| strip_end(text, set).len() <= k < text.len() ==> set(#[trigger] text[k]),
    decreases text.len(),
{
    if text.len() > 0 && set(text.last()) {
        let rest = text.drop_last();
        lemma_stripped_end(rest, set);
        assert forall|k: int|
            strip_end(text, set).len() <= k < text.len() implies set(#[trigger] text[k]) by {
            if k < rest.len() {
                assert(text[k] == rest[k]);
            }
        }
    }
}

/// Stripping takes off both ends what is in the set, all of it and nothing else.
pub proof fn stripping_takes_off_the_margins(text: Seq<char>, set: spec_fn(char) -> bool)
    ensures
        exists|i: int, j: int| #[trigger]
            inside_margins(text, set, i, j) && strip(text, set) == text.subrange(i, j),
{
    let rest = strip_start(text, set);
    let inner = strip(text, set);
    lemma_strip_start(text, set);
    lemma_strip_end(rest, set);
    lemma_stripped_start(text, set);
    lemma_stripped_end(rest, set);
    let i = text.len() - rest.len();
    let j = i + inner.len();
    assert(rest == text.skip(i));
    assert(inner =~= text.subrange(i, j));
    assert forall|k: int| j <= k < text.len() implies set(#[trigger] text[k]) by {
        assert(text[k] == rest[k - i]);
    }
    if i < j {
        assert(text[i] == rest[0]);
        assert(text[j - 1] == inner.last());
    }
    assert(inside_margins(text, set, i, j));
}

/// Trimming takes the white space off both ends of a text and nothing else.
pub proof fn trimming_takes_off_white_space(text: Seq<char>)
    ensures
        exists|i: int, j: int| #[trigger]
            inside_margins(text, spaces(), i, j) && trimmed(text) == text.subrange(i, j),
{
    assert(spaces() =~= white_set());
    stripping_takes_off_the_margins(text, spaces());
}

/// Around an account id, the marks that are taken off are asterisks, commas and colons.
pub proof fn listing_marks_are_taken_off(text: Seq<char>)
    ensures
        exists|i: int, j: int| #[trigger]
            inside_margins(text, marks(), i, j) && strip(text, mark_set())
                == text.subrange(i, j),
{
    assert(marks() =~= mark_set());
    stripping_takes_off_the_margins(text, marks());
}

/// A text of white space has no words.
pub proof fn white_space_has_no_words(text: Seq<char>)
    requires
        forall|i: int| 0 <= i < text.len() ==> white_space(#[trigger] text[i]),
    ensures
        words(text).len() == 0,
    decreases text.len(),
{
    if text.len() > 0 {
        let rest = text.drop_first();
        assert forall|i: int| 0 <= i < rest.len() implies white_space(#[trigger] rest[i]) by {
            assert(rest[i] == text[i + 1]);
        }
        white_space_has_no_words(rest);
        assert(white_space(text[0]));
        assert(strip_start(text, white_set()) == strip_start(rest, white_set()));
        lemma_strip_start(rest, white_set());
        let left = strip_start(rest, white_set());
        if left.len() > 0 {
            assert(left[0] == rest[rest.len() - left.len()]);
        }
    }
}

/// A word between white space, or at an end of the text, is one of the words, whole, and
/// the others are those before and those behind it.
pub proof fn every_word_is_found_whole(pre: Seq<char>, word: Seq<char>, post: Seq<char>)
    requires
        pre.len() > 0 ==> white_space(pre.last()),
        post.len() > 0 ==> white_space(post[0]),
        word.len() > 0,
        forall|i: int| 0 <= i < word.len() ==> !white_space(#[trigger] word[i]),
    ensures
        words(pre + word + post) == words(pre) + seq![word] + words(post),
{
    assert(is_word(word));
    assert(pre + word + post =~= pre + (word + post));
    lemma_words_concat(pre, word + post);
    lemma_words_of_word(word, post);
    assert(words(pre) + (seq![word] + words(post)) =~= words(pre) + seq![word] + words(post));
}

/// A text is cut into lines at its line feeds: what stands before the first one is the
/// first line, whole but for one carriage return at its end, and the others are the lines
/// of what follows. Without a line feed the text is one line, unless it is empty.
pub proof fn lines_are_cut_at_line_feeds(line: Seq<char>, rest: Seq<char>)
    requires
        forall|i: int| 0 <= i < line.len() ==> #[trigger] line[i] != '\n',
    ensures
        lines(line + seq!['\n'] + rest) == seq![
            if line.len() > 0 && line.last() == '\r' {
                line.drop_last()
            } else {
                line
            },
        ] + lines(rest),
        lines(line) == if line.len() > 0 {
            seq![line]
        } else {
            Seq::empty()
        },
{
    let tail = seq!['\n'] + rest;
    assert(line + seq!['\n'] + rest =~= line + tail);
    lemma_lines_of_line(line, tail);
    assert(tail.skip(1) =~= rest);
    if line.len() > 0 {
        lemma_lines_of_line(line, Seq::empty());
        assert(line + Seq::<char>::empty() =~= line);
        assert(lines(Seq::<char>::empty()) =~= Seq::empty());
        assert(lines(line) =~= seq![line]);
    }
}

/// A text occurs in another exactly if something before it and something behind it make
/// the other up.
pub proof fn parts_occur_anywhere(text: Seq<char>, part: Seq<char>)
    ensures
        forall|pre: Seq<char>, post: Seq<char>|
            text == #[trigger] (pre + part + post) ==> occurs(text, part),
        occurs(text, part) ==> exists|i: int|
            0 <= i <= text.len() - part.len() && text == #[trigger] text.take(i) + part + text.skip(
                i + part.len(),
            ),
{
    assert forall|pre: Seq<char>, post: Seq<char>|
        text == #[trigger] (pre + part + post) implies occurs(text, part) by {
        let i = pre.len() as int;
        assert(text.subrange(i, i + part.len()) =~= part);
        assert(occurs_at(text, part, i));
    }
    if occurs(text, part) {
        let i = choose|i: int| #[trigger] occurs_at(text, part, i);
        assert(text.take(i) + text.subrange(i, i + part.len()) + text.skip(i + part.len())
            =~= text);
    }
}

/// Two texts differ first at this position, and there `a` is over or has the smaller
/// character.
pub open spec fn decided_at(a: Seq<char>, b: Seq<char>, k: int) -> bool {
    &&& 0 <= k <= a.len()
    &&& k < b.len()
    &&& forall|i: int| 0 <= i < k ==> #[trigger] a[i] == b[i]
    &&& k == a.len() || a[k] < b[k]
}

/// A text comes before another exactly if, where they first differ, it is over or has the
/// smaller character.
pub proof fn order_is_decided_by_the_first_difference(a: Seq<char>, b: Seq<char>)
    ensures
        text_before(a, b) <==> exists|k: int| #[trigger] decided_at(a, b, k),
    decreases a.len(),
{
    if a.len() == 0 || b.len() == 0 || a[0] != b[0] {
        if text_before(a, b) {
            assert(decided_at(a, b, 0));
        }
        if exists|k: int| #[trigger] decided_at(a, b, k) {
            let k = choose|k: int| #[trigger] decided_at(a, b, k);
            if k > 0 {
                assert(a[0] == b[0]);
            }
        }
    } else {
        let x = a.drop_first();
        let y = b.drop_first();
        order_is_decided_by_the_first_difference(x, y);
        if text_before(a, b) {
            let k = choose|k: int| #[trigger] decided_at(x, y, k);
            assert forall|i: int| 0 <= i < k + 1 implies #[trigger] a[i] == b[i] by {
                if i > 0 {
                    assert(a[i] == x[i - 1]);
                }
            }
            assert(decided_at(a, b, k + 1));
        }
        if exists|k: int| #[trigger] decided_at(a, b, k) {
            let k = choose|k: int| #[trigger] decided_at(a, b, k);
            assert forall|i: int| 0 <= i < k - 1 implies #[trigger] x[i] == y[i] by {
                assert(a[i + 1] == b[i + 1]);
            }
            assert(decided_at(x, y, k - 1));
        }
    }
}

} // verus!
