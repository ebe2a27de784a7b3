//! Text as sequences of characters: comparison, order, trimming and splitting.

use vstd::prelude::*;

verus! {

/// The characters with Unicode's `White_Space` property.
pub open spec fn white_space(c: char) -> bool {
    ||| '\u{9}' <= c <= '\u{d}'
    ||| c == ' '
    ||| c == '\u{85}'
    ||| c == '\u{a0}'
    ||| c == '\u{1680}'
    ||| '\u{2000}' <= c <= '\u{200a}'
    ||| c == '\u{2028}'
    ||| c == '\u{2029}'
    ||| c == '\u{202f}'
    ||| c == '\u{205f}'
    ||| c == '\u{3000}'
}

/// The marks that may surround an account id in a listing.
pub open spec fn listing_mark(c: char) -> bool {
    c == '*' || c == ',' || c == ':'
}

/// The set of white space.
pub open spec fn white_set() -> spec_fn(char) -> bool {
    |c: char| white_space(c)
}

/// The set of listing marks.
pub open spec fn mark_set() -> spec_fn(char) -> bool {
    |c: char| listing_mark(c)
}

/// The set of the line feed alone.
pub open spec fn line_feed_set() -> spec_fn(char) -> bool {
    |c: char| c == '\n'
}

/// `text` without its longest prefix of characters in `set`.
pub open spec fn strip_start(text: Seq<char>, set: spec_fn(char) -> bool) -> Seq<char>
    decreases text.len(),
{
    if text.len() > 0 && set(text[0]) {
        strip_start(text.drop_first(), set)
    } else {
        text
    }
}

/// `text` without its longest suffix of characters in `set`.
pub open spec fn strip_end(text: Seq<char>, set: spec_fn(char) -> bool) -> Seq<char>
    decreases text.len(),
{
    if text.len() > 0 && set(text.last()) {
        strip_end(text.drop_last(), set)
    } else {
        text
    }
}

/// `text` without the characters in `set` at either end.
pub open spec fn strip(text: Seq<char>, set: spec_fn(char) -> bool) -> Seq<char> {
    strip_end(strip_start(text, set), set)
}

/// `text` without white space at either end.
pub open spec fn trimmed(text: Seq<char>) -> Seq<char> {
    strip(text, white_set())
}

/// How many characters of `text` come before the first one in `set`.
pub open spec fn run_before(text: Seq<char>, set: spec_fn(char) -> bool) -> nat
    decreases text.len(),
{
    if text.len() == 0 || set(text[0]) {
        0
    } else {
        1 + run_before(text.drop_first(), set)
    }
}

/// The maximal runs of `text` that hold no white space, in order.
pub open spec fn words(text: Seq<char>) -> Seq<Seq<char>>
    decreases text.len(),
    via words_shrink
{
    let rest = strip_start(text, white_set());
    if rest.len() == 0 {
        Seq::empty()
    } else {
        let n = run_before(rest, white_set()) as int;
        seq![rest.take(n)] + words(rest.skip(n))
    }
}

#[via_fn]
proof fn words_shrink(text: Seq<char>) {
    let white = white_set();
    let rest = strip_start(text, white);
    lemma_strip_start(text, white);
    if rest.len() > 0 {
        lemma_run_before(rest, white);
    }
}

/// A line of `text`: what comes before the first line feed, without a carriage
/// return directly in front of that line feed.
pub open spec fn first_line(text: Seq<char>) -> Seq<char> {
    let n = run_before(text, line_feed_set()) as int;
    if n < text.len() && n > 0 && text[n - 1] == '\r' {
        text.take(n - 1)
    } else {
        text.take(n)
    }
}

/// The lines of `text`, in order and without their line endings. The last line
/// need not end in a line feed.
pub open spec fn lines(text: Seq<char>) -> Seq<Seq<char>>
    decreases text.len(),
    via lines_shrink
{
    if text.len() == 0 {
        Seq::empty()
    } else {
        let n = run_before(text, line_feed_set()) as int;
        seq![first_line(text)] + lines(if n < text.len() {
            text.skip(n + 1)
        } else {
            Seq::empty()
        })
    }
}

#[via_fn]
proof fn lines_shrink(text: Seq<char>) {
    lemma_run_before(text, line_feed_set());
}

/// `part` occurs in `text`.
pub open spec fn occurs(text: Seq<char>, part: Seq<char>) -> bool {
    exists|i: int| #[trigger] occurs_at(text, part, i)
}

/// `part` occurs in `text` from position `i` on.
pub open spec fn occurs_at(text: Seq<char>, part: Seq<char>, i: int) -> bool {
    0 <= i && i + part.len() <= text.len() && text.subrange(i, i + part.len()) == part
}

/// `a` comes strictly before `b` in the order of code points, compared from the
/// front; a proper prefix comes before the longer text.
pub open spec fn text_before(a: Seq<char>, b: Seq<char>) -> bool
    decreases a.len(),
{
    if b.len() == 0 {
        false
    } else if a.len() == 0 {
        true
    } else if a[0] == b[0] {
        text_before(a.drop_first(), b.drop_first())
    } else {
        a[0] < b[0]
    }
}

/// An ASCII digit.
pub open spec fn digit(c: char) -> bool {
    '0' <= c <= '9'
}

/// Every character of `text` is an ASCII digit.
pub open spec fn digits(text: Seq<char>) -> bool {
    forall|i: int| 0 <= i < text.len() ==> digit(#[trigger] text[i])
}

/// What is left of the strip is a suffix of the text that does not start in `set`.
pub(crate) proof fn lemma_strip_start(text: Seq<char>, set: spec_fn(char) -> bool)
    ensures
        strip_start(text, set).len() <= text.len(),
        strip_start(text, set) == text.skip(text.len() - strip_start(text, set).len()),
        strip_start(text, set).len() > 0 ==> !set(strip_start(text, set)[0]),
    decreases text.len(),
{
    if text.len() > 0 && set(text[0]) {
        lemma_strip_start(text.drop_first(), set);
    }
}

/// The run ends inside the text, at its end or at a character in `set`.
pub(crate) proof fn lemma_run_before(text: Seq<char>, set: spec_fn(char) -> bool)
    ensures
        run_before(text, set) <= text.len(),
        text.len() > 0 && !set(text[0]) ==> run_before(text, set) > 0,
    decreases text.len(),
{
    if text.len() > 0 && !set(text[0]) {
        lemma_run_before(text.drop_first(), set);
    }
}

/// What is left of the strip at the end is a prefix of the text that does not end in
/// `set`.
pub(crate) proof fn lemma_strip_end(text: Seq<char>, set: spec_fn(char) -> bool)
    ensures
        strip_end(text, set).len() <= text.len(),
        strip_end(text, set) == text.take(strip_end(text, set).len() as int),
        strip_end(text, set).len() > 0 ==> !set(strip_end(text, set).last()),
    decreases text.len(),
{
    if text.len() > 0 && set(text.last()) {
        lemma_strip_end(text.drop_last(), set);
    }
}

/// A text without white space around it stays as it is when it is trimmed again.
pub proof fn trimming_twice_is_trimming_once(text: Seq<char>)
    ensures
        trimmed(trimmed(text)) == trimmed(text),
{
    let set = white_set();
    let rest = strip_start(text, set);
    lemma_strip_start(text, set);
    lemma_strip_end(rest, set);
    let inner = trimmed(text);
    if inner.len() > 0 {
        assert(inner[0] == rest[0]);
    }
}

/// The strip goes on in the second part only where nothing is left of the first.
proof fn lemma_strip_start_concat(a: Seq<char>, b: Seq<char>, set: spec_fn(char) -> bool)
    ensures
        strip_start(a + b, set) == (if strip_start(a, set).len() > 0 {
            strip_start(a, set) + b
        } else {
            strip_start(b, set)
        }),
    decreases a.len(),
{
    if a.len() == 0 {
        assert(a + b =~= b);
    } else {
        assert((a + b).drop_first() =~= a.drop_first() + b);
        if set(a[0]) {
            lemma_strip_start_concat(a.drop_first(), b, set);
        }
    }
}

/// The run goes on in the second part only where it does not end in the first.
proof fn lemma_run_before_concat(a: Seq<char>, b: Seq<char>, set: spec_fn(char) -> bool)
    ensures
        run_before(a + b, set) == (if run_before(a, set) < a.len() {
            run_before(a, set)
        } else {
            a.len() + run_before(b, set)
        }),
    decreases a.len(),
{
    if a.len() == 0 {
        assert(a + b =~= b);
    } else {
        assert((a + b).drop_first() =~= a.drop_first() + b);
        if !set(a[0]) {
            lemma_run_before_concat(a.drop_first(), b, set);
        }
    }
}

/// The run ends at a character in `set`, and holds none.
proof fn lemma_run_before_end(text: Seq<char>, set: spec_fn(char) -> bool)
    ensures
        run_before(text, set) < text.len() ==> set(text[run_before(text, set) as int]),
        forall|k: int| 0 <= k < run_before(text, set) && k < text.len() ==> !set(
            #[trigger] text[k],
        ),
    decreases text.len(),
{
    if text.len() > 0 && !set(text[0]) {
        let rest = text.drop_first();
        lemma_run_before_end(rest, set);
        assert forall|k: int| 0 <= k < run_before(text, set) && k < text.len() implies !set(
            #[trigger] text[k],
        ) by {
            if k > 0 {
                assert(text[k] == rest[k - 1]);
            }
        }
    }
}

/// A word: at least one character and no white space.
pub open spec fn is_word(text: Seq<char>) -> bool {
    text.len() > 0 && forall|i: int| 0 <= i < text.len() ==> !white_space(#[trigger] text[i])
}

/// The words of a text that stops at white space, and of what follows, are the words of
/// both.
pub(crate) proof fn lemma_words_concat(a: Seq<char>, b: Seq<char>)
    requires
        a.len() > 0 ==> white_space(a.last()),
    ensures
        words(a + b) == words(a) + words(b),
    decreases a.len(),
{
    let white = white_set();
    let rest = strip_start(a, white);
    lemma_strip_start(a, white);
    lemma_strip_start_concat(a, b, white);
    if rest.len() == 0 {
        lemma_words_of_rest(a + b, b);
        assert(words(a) + words(b) =~= words(b));
    } else {
        let n = run_before(rest, white) as int;
        lemma_run_before(rest, white);
        lemma_run_before_end(rest, white);
        assert(rest.last() == a.last());
        assert(n < rest.len());
        lemma_run_before_concat(rest, b, white);
        assert((rest + b).take(n) =~= rest.take(n));
        assert((rest + b).skip(n) =~= rest.skip(n) + b);
        lemma_words_concat(rest.skip(n), b);
        assert(words(a + b) =~= words(a) + words(b));
    }
}

/// Texts that are the same behind the white space in front have the same words.
proof fn lemma_words_of_rest(a: Seq<char>, b: Seq<char>)
    requires
        strip_start(a, white_set()) == strip_start(b, white_set()),
    ensures
        words(a) == words(b),
{
}

/// A word in front of white space is the first word.
pub(crate) proof fn lemma_words_of_word(word: Seq<char>, post: Seq<char>)
    requires
        is_word(word),
        post.len() > 0 ==> white_space(post[0]),
    ensures
        words(word + post) == seq![word] + words(post),
{
    let white = white_set();
    let all = word + post;
    assert(!white(all[0]));
    assert(strip_start(all, white) == all);
    lemma_run_before_skip(all, white, word.len() as int);
    assert(all.skip(word.len() as int) =~= post);
    assert(run_before(post, white) == 0);
    assert(all.take(word.len() as int) =~= word);
}

/// White space at the end of a text adds no word.
pub(crate) proof fn lemma_words_before_white(text: Seq<char>, c: char)
    requires
        white_space(c),
    ensures
        words(text.push(c)) == words(text),
    decreases text.len(),
{
    let white = white_set();
    let tail = seq![c];
    let rest = strip_start(text, white);
    assert(text.push(c) =~= text + tail);
    lemma_strip_start(text, white);
    lemma_strip_start_concat(text, tail, white);
    assert(strip_start(tail, white).len() == 0) by {
        assert(tail.drop_first() =~= Seq::empty());
        reveal_with_fuel(strip_start, 2);
    }
    if rest.len() > 0 {
        let n = run_before(rest, white) as int;
        lemma_run_before(rest, white);
        lemma_run_before_concat(rest, tail, white);
        assert(run_before(tail, white) == 0);
        assert((rest + tail).take(n) =~= rest.take(n));
        assert((rest + tail).skip(n) =~= rest.skip(n).push(c));
        lemma_words_before_white(rest.skip(n), c);
    }
}

/// White space at the end of a text is trimmed.
pub(crate) proof fn lemma_trimmed_before_white(text: Seq<char>, c: char)
    requires
        white_space(c),
    ensures
        trimmed(text.push(c)) == trimmed(text),
{
    let white = white_set();
    let tail = seq![c];
    let rest = strip_start(text, white);
    assert(text.push(c) =~= text + tail);
    lemma_strip_start_concat(text, tail, white);
    if rest.len() > 0 {
        assert((rest + tail).drop_last() =~= rest);
    } else {
        assert(tail.drop_first() =~= Seq::empty());
        reveal_with_fuel(strip_start, 2);
        assert(strip_start(tail, white) =~= rest);
    }
}

/// The lines of a text that is empty or ends in a line feed, and of what follows, are the
/// lines of both.
pub(crate) proof fn lemma_lines_concat(a: Seq<char>, b: Seq<char>)
    requires
        a.len() > 0 ==> a.last() == '\n',
    ensures
        lines(a + b) == lines(a) + lines(b),
    decreases a.len(),
{
    if a.len() == 0 {
        assert(a + b =~= b);
        assert(lines(a) + lines(b) =~= lines(b));
    } else {
        let set = line_feed_set();
        let n = run_before(a, set) as int;
        lemma_run_before(a, set);
        lemma_run_before_end(a, set);
        assert(set(a[a.len() - 1]));
        assert(n < a.len());
        lemma_run_before_concat(a, b, set);
        assert((a + b).take(n) =~= a.take(n));
        if n > 0 {
            assert((a + b).take(n - 1) =~= a.take(n - 1));
        }
        assert((a + b).skip(n + 1) =~= a.skip(n + 1) + b);
        lemma_lines_concat(a.skip(n + 1), b);
        assert(lines(a + b) =~= lines(a) + lines(b));
    }
}

/// A line without a line feed, at the end of the text or in front of one, is the first
/// line.
pub(crate) proof fn lemma_lines_of_line(line: Seq<char>, tail: Seq<char>)
    requires
        forall|i: int| 0 <= i < line.len() ==> #[trigger] line[i] != '\n',
        tail.len() > 0 ==> tail[0] == '\n',
        line.len() + tail.len() > 0,
    ensures
        lines(line + tail) == seq![first_line(line + tail)] + lines(
            if tail.len() > 0 {
                tail.skip(1)
            } else {
                Seq::empty()
            },
        ),
        first_line(line + tail) == (if tail.len() > 0 && line.len() > 0 && line.last() == '\r' {
            line.drop_last()
        } else {
            line
        }),
{
    let set = line_feed_set();
    let all = line + tail;
    let n = line.len() as int;
    lemma_run_before_skip(all, set, n);
    assert(all.skip(n) =~= tail);
    assert(run_before(tail, set) == 0);
    assert(all.take(n) =~= line);
    if n > 0 {
        assert(all[n - 1] == line.last());
        assert(all.take(n - 1) =~= line.drop_last());
    }
    if tail.len() > 0 {
        assert(all.skip(n + 1) =~= tail.skip(1));
    }
}

/// The last line of a text that does not end in a line feed: it stands behind the last
/// line feed, or is the whole text.
pub(crate) proof fn lemma_last_line(text: Seq<char>) -> (cut: int)
    requires
        text.len() > 0,
        text.last() != '\n',
    ensures
        0 <= cut < text.len(),
        cut > 0 ==> text[cut - 1] == '\n',
        forall|i: int| cut <= i < text.len() ==> #[trigger] text[i] != '\n',
        lines(text) == lines(text.take(cut)).push(text.skip(cut)),
{
    let cut = last_start(text);
    lemma_last_start(text);
    let line = text.skip(cut);
    assert(text =~= text.take(cut) + line);
    lemma_lines_concat(text.take(cut), line);
    lemma_lines_of_line(line, Seq::empty());
    assert(line + Seq::<char>::empty() =~= line);
    assert(lines(Seq::<char>::empty()) =~= Seq::empty());
    assert(lines(text) =~= lines(text.take(cut)).push(line));
    cut
}

/// Where the last line of a text starts.
spec fn last_start(text: Seq<char>) -> int
    decreases text.len(),
{
    if text.len() == 0 || text.last() == '\n' {
        text.len() as int
    } else {
        last_start(text.drop_last())
    }
}

proof fn lemma_last_start(text: Seq<char>)
    ensures
        0 <= last_start(text) <= text.len(),
        last_start(text) > 0 ==> text[last_start(text) - 1] == '\n',
        forall|i: int| last_start(text) <= i < text.len() ==> #[trigger] text[i] != '\n',
    decreases text.len(),
{
    if text.len() > 0 && text.last() != '\n' {
        lemma_last_start(text.drop_last());
        assert forall|i: int| last_start(text) <= i < text.len() implies #[trigger] text[i]
            != '\n' by {
            if i < text.len() - 1 {
                assert(text[i] == text.drop_last()[i]);
            }
        }
    }
}

/// If the first `n` characters are in `set`, they do not count for the strip.
proof fn lemma_strip_start_skip(text: Seq<char>, set: spec_fn(char) -> bool, n: int)
    requires
        0 <= n <= text.len(),
        forall|k: int| 0 <= k < n ==> set(#[trigger] text[k]),
    ensures
        strip_start(text, set) == strip_start(text.skip(n), set),
    decreases n,
{
    if n == 0 {
        assert(text.skip(0) =~= text);
    } else {
        lemma_strip_start_skip(text.drop_first(), set, n - 1);
        assert(text.drop_first().skip(n - 1) =~= text.skip(n));
    }
}

/// The same for the characters from position `n` on and the strip at the end.
proof fn lemma_strip_end_take(text: Seq<char>, set: spec_fn(char) -> bool, n: int)
    requires
        0 <= n <= text.len(),
        forall|k: int| n <= k < text.len() ==> set(#[trigger] text[k]),
    ensures
        strip_end(text, set) == strip_end(text.take(n), set),
    decreases text.len() - n,
{
    if n == text.len() {
        assert(text.take(n) =~= text);
    } else {
        lemma_strip_end_take(text.drop_last(), set, n);
        assert(text.drop_last().take(n) =~= text.take(n));
    }
}

/// If the first `n` characters are not in `set`, the run goes on behind them.
proof fn lemma_run_before_skip(text: Seq<char>, set: spec_fn(char) -> bool, n: int)
    requires
        0 <= n <= text.len(),
        forall|k: int| 0 <= k < n ==> !set(#[trigger] text[k]),
    ensures
        run_before(text, set) == n + run_before(text.skip(n), set),
    decreases n,
{
    if n == 0 {
        assert(text.skip(0) =~= text);
    } else {
        lemma_run_before_skip(text.drop_first(), set, n - 1);
        assert(text.drop_first().skip(n - 1) =~= text.skip(n));
    }
}

/// A common prefix does not decide the order.
proof fn lemma_text_before_skip(a: Seq<char>, b: Seq<char>, n: int)
    requires
        0 <= n <= a.len(),
        n <= b.len(),
        forall|k: int| 0 <= k < n ==> a[k] == b[k],
    ensures
        text_before(a, b) == text_before(a.skip(n), b.skip(n)),
    decreases n,
{
    if n == 0 {
        assert(a.skip(0) =~= a);
        assert(b.skip(0) =~= b);
    } else {
        lemma_text_before_skip(a.drop_first(), b.drop_first(), n - 1);
        assert(a.drop_first().skip(n - 1) =~= a.skip(n));
        assert(b.drop_first().skip(n - 1) =~= b.skip(n));
    }
}

/// No text comes before itself, and of two different texts exactly one comes
/// before the other.
pub proof fn text_order_is_total(a: Seq<char>, b: Seq<char>)
    ensures
        !text_before(a, a),
        a != b ==> text_before(a, b) != text_before(b, a),
    decreases a.len(),
{
    if a.len() > 0 && b.len() > 0 {
        text_order_is_total(a.drop_first(), b.drop_first());
        if a[0] == b[0] && a.drop_first() == b.drop_first() {
            assert(a =~= seq![a[0]] + a.drop_first());
            assert(b =~= seq![b[0]] + b.drop_first());
        }
    } else if a.len() > 0 {
        text_order_is_total(a.drop_first(), a.drop_first());
    } else if b.len() == 0 {
        assert(a =~= b);
    }
}

/// The order of texts is transitive.
pub proof fn text_order_is_transitive(a: Seq<char>, b: Seq<char>, c: Seq<char>)
    requires
        text_before(a, b),
        text_before(b, c),
    ensures
        text_before(a, c),
    decreases a.len(),
{
    if a.len() > 0 && a[0] == b[0] && b[0] == c[0] {
        text_order_is_transitive(a.drop_first(), b.drop_first(), c.drop_first());
    }
}

/// Tells whether a character is white space.
pub fn is_white_space(c: char) -> (white: bool)
    ensures
        white == white_space(c),
{
    ('\u{9}' <= c && c <= '\u{d}') || c == ' ' || c == '\u{85}' || c == '\u{a0}' || c == '\u{1680}'
        || ('\u{2000}' <= c && c <= '\u{200a}') || c == '\u{2028}' || c == '\u{2029}' || c
        == '\u{202f}' || c == '\u{205f}' || c == '\u{3000}'
}

/// The characters of a text, in order.
pub fn chars_of(text: &str) -> (chars: Vec<char>)
    ensures
        chars@ == text@,
{
    let mut chars: Vec<char> = Vec::new();
    for c in it: text.chars()
        invariant
            chars@ == it.seq().take(it.index()),
            it.seq() == text@,
    {
        chars.push(c);
    }
    chars
}

/// Tells whether two texts hold the same characters.
pub fn same_text(a: &str, b: &str) -> (same: bool)
    ensures
        same == (a@ == b@),
{
    let x = chars_of(a);
    let y = chars_of(b);
    if x.len() != y.len() {
        return false;
    }
    let mut i: usize = 0;
    while i < x.len()
        invariant
            x@.len() == y@.len(),
            x@ == a@,
            y@ == b@,
            i <= x@.len(),
            forall|k: int| 0 <= k < i ==> x@[k] == y@[k],
        decreases x@.len() - i,
    {
        if x[i] != y[i] {
            return false;
        }
        i += 1;
    }
    assert(a@ =~= b@);
    true
}

/// Tells whether `a` comes strictly before `b`.
pub fn comes_before(a: &str, b: &str) -> (before: bool)
    ensures
        before == text_before(a@, b@),
{
    let x = chars_of(a);
    let y = chars_of(b);
    let mut i: usize = 0;
    while i < x.len() && i < y.len()
        invariant
            x@ == a@,
            y@ == b@,
            i <= x@.len(),
            i <= y@.len(),
            forall|k: int| 0 <= k < i ==> x@[k] == y@[k],
        decreases x@.len() - i,
    {
        if x[i] != y[i] {
            proof {
                lemma_text_before_skip(a@, b@, i as int);
            }
            return x[i] < y[i];
        }
        i += 1;
    }
    proof {
        lemma_text_before_skip(a@, b@, i as int);
    }
    i < y.len()
}

/// Tells whether a list holds a text.
pub fn holds_text(list: &[String], text: &str) -> (held: bool)
    ensures
        held == list.deep_view().contains(text@),
{
    let mut i: usize = 0;
    while i < list.len()
        invariant
            i <= list@.len(),
            forall|k: int| 0 <= k < i ==> list.deep_view()[k] != text@,
        decreases list@.len() - i,
    {
        if same_text(list[i].as_str(), text) {
            assert(list.deep_view()[i as int] == text@);
            return true;
        }
        i += 1;
    }
    false
}

/// Tells whether `part` occurs in `text`.
pub fn contains(text: &str, part: &str) -> (found: bool)
    ensures
        found == occurs(text@, part@),
{
    let x = chars_of(text);
    let y = chars_of(part);
    if y.len() > x.len() {
        return false;
    }
    let last: usize = x.len() - y.len();
    let mut i: usize = 0;
    while i <= last
        invariant
            x@ == text@,
            y@ == part@,
            last + y.len() == x.len(),
            i <= last + 1,
            forall|k: int| 0 <= k < i ==> !#[trigger] occurs_at(text@, part@, k),
        decreases last + 1 - i,
    {
        let mut j: usize = 0;
        while j < y.len() && x[i + j] == y[j]
            invariant
                i <= last,
                last + y.len() == x.len(),
                j <= y.len(),
                forall|k: int| 0 <= k < j ==> x@.skip(i as int)[k] == #[trigger] y@[k],
            decreases y@.len() - j,
        {
            j += 1;
        }
        if j == y.len() {
            assert forall|k: int| 0 <= k < part@.len() implies text@.subrange(
                i as int,
                i + part@.len(),
            )[k] == part@[k] by {
                assert(x@.skip(i as int)[k] == y@[k]);
            }
            assert(text@.subrange(i as int, i + part@.len()) =~= part@);
            assert(occurs_at(text@, part@, i as int));
            return true;
        }
        assert(text@.subrange(i as int, i + part@.len())[j as int] == x@[i + j]);
        if i == last {
            assert forall|k: int| !#[trigger] occurs_at(text@, part@, k) by {}
            return false;
        }
        i += 1;
    }
    false
}

/// Tells whether a character is a listing mark (`marks`) or white space.
fn in_margin(c: char, marks: bool) -> (inside: bool)
    ensures
        inside == margin(marks)(c),
{
    if marks {
        c == '*' || c == ',' || c == ':'
    } else {
        is_white_space(c)
    }
}

/// The listing marks (`marks`) or white space.
spec fn margin(marks: bool) -> spec_fn(char) -> bool {
    if marks {
        mark_set()
    } else {
        white_set()
    }
}

/// The text without its margin at either end.
fn strip_margin(text: &str, marks: bool) -> (inner: &str)
    ensures
        inner@ == strip(text@, margin(marks)),
{
    let chars = chars_of(text);
    let ghost set = margin(marks);
    let mut from: usize = 0;
    while from < chars.len() && in_margin(chars[from], marks)
        invariant
            chars@ == text@,
            from <= chars@.len(),
            set == margin(marks),
            forall|k: int| 0 <= k < from ==> set(#[trigger] chars@[k]),
        decreases chars@.len() - from,
    {
        from += 1;
    }
    proof {
        lemma_strip_start_skip(text@, set, from as int);
    }
    let ghost rest = text@.skip(from as int);
    assert(strip_start(rest, set) == rest);
    let mut to: usize = chars.len();
    while to > from && in_margin(chars[to - 1], marks)
        invariant
            chars@ == text@,
            from <= to <= chars@.len(),
            rest == text@.skip(from as int),
            set == margin(marks),
            forall|k: int| to - from <= k < rest.len() ==> set(#[trigger] rest[k]),
        decreases to,
    {
        assert(rest[to - 1 - from] == chars@[to - 1]);
        to -= 1;
    }
    proof {
        lemma_strip_end_take(rest, set, to - from);
        assert(rest.take(to - from) =~= text@.subrange(from as int, to as int));
        if to > from {
            assert(rest.take(to - from).last() == chars@[to - 1]);
        }
    }
    text.substring_char(from, to)
}

/// The text without white space at either end.
pub fn trim(text: &str) -> (inner: &str)
    ensures
        inner@ == trimmed(text@),
{
    strip_margin(text, false)
}

/// The text without listing marks at either end.
pub fn trim_marks(text: &str) -> (inner: &str)
    ensures
        inner@ == strip(text@, mark_set()),
{
    strip_margin(text, true)
}

/// The lines of a text, in order and without their line endings.
pub fn split_lines(text: &str) -> (parts: Vec<&str>)
    ensures
        parts.deep_view() == lines(text@),
{
    let chars = chars_of(text);
    let ghost set = line_feed_set();
    let mut parts: Vec<&str> = Vec::new();
    let mut start: usize = 0;
    assert(text@.skip(0) =~= text@);
    while start < chars.len()
        invariant
            chars@ == text@,
            start <= chars@.len(),
            set == line_feed_set(),
            lines(text@) == parts.deep_view() + lines(text@.skip(start as int)),
        decreases chars@.len() - start,
    {
        let ghost rest = text@.skip(start as int);
        let mut end: usize = start;
        while end < chars.len() && chars[end] != '\n'
            invariant
                chars@ == text@,
                start <= end <= chars@.len(),
                set == line_feed_set(),
                rest == text@.skip(start as int),
                forall|k: int| 0 <= k < end - start ==> !set(#[trigger] rest[k]),
            decreases chars@.len() - end,
        {
            assert(rest[end - start] == chars@[end as int]);
            end += 1;
        }
        proof {
            lemma_run_before_skip(rest, set, end - start);
            assert(run_before(rest.skip(end - start), set) == 0) by {
                if end < chars@.len() {
                    assert(rest.skip(end - start)[0] == chars@[end as int]);
                }
            }
        }
        let ghost before = parts.deep_view();
        let stop: usize = if end < chars.len() && end > start && chars[end - 1] == '\r' {
            end - 1
        } else {
            end
        };
        let line = text.substring_char(start, stop);
        proof {
            if end > start {
                assert(rest[end - start - 1] == chars@[end - 1]);
            }
            assert(rest.take(stop - start) =~= text@.subrange(start as int, stop as int));
            assert(line@ == first_line(rest));
        }
        parts.push(line);
        let next: usize = if end < chars.len() {
            end + 1
        } else {
            end
        };
        proof {
            assert(parts.deep_view() =~= before.push(line@));
            if end < chars@.len() {
                assert(rest.skip(end - start + 1) =~= text@.skip(next as int));
            } else {
                assert(text@.skip(next as int) =~= Seq::empty());
            }
            assert(before + (seq![line@] + lines(text@.skip(next as int))) =~= before.push(line@)
                + lines(text@.skip(next as int)));
        }
        start = next;
    }
    assert(text@.skip(start as int) =~= Seq::empty());
    assert(parts.deep_view() + Seq::empty() =~= parts.deep_view());
    parts
}

/// The runs of a text that hold no white space, in order.
pub fn split_words(text: &str) -> (parts: Vec<&str>)
    ensures
        parts.deep_view() == words(text@),
{
    let chars = chars_of(text);
    let ghost set = white_set();
    let mut parts: Vec<&str> = Vec::new();
    let mut start: usize = 0;
    assert(text@.skip(0) =~= text@);
    loop
        invariant
            chars@ == text@,
            start <= chars@.len(),
            set == white_set(),
            words(text@) == parts.deep_view() + words(text@.skip(start as int)),
        decreases chars@.len() - start,
    {
        let ghost rest = text@.skip(start as int);
        let mut from: usize = start;
        while from < chars.len() && is_white_space(chars[from])
            invariant
                chars@ == text@,
                start <= from <= chars@.len(),
                set == white_set(),
                rest == text@.skip(start as int),
                forall|k: int| 0 <= k < from - start ==> set(#[trigger] rest[k]),
            decreases chars@.len() - from,
        {
            assert(rest[from - start] == chars@[from as int]);
            from += 1;
        }
        let ghost word_rest = text@.skip(from as int);
        proof {
            lemma_strip_start_skip(rest, set, from - start);
            assert(rest.skip(from - start) =~= word_rest);
            if from < chars@.len() {
                assert(word_rest[0] == chars@[from as int]);
            }
            assert(strip_start(word_rest, set) == word_rest);
        }
        if from == chars.len() {
            assert(words(rest) =~= Seq::empty());
            assert(parts.deep_view() + Seq::empty() =~= parts.deep_view());
            return parts;
        }
        let mut end: usize = from;
        while end < chars.len() && !is_white_space(chars[end])
            invariant
                chars@ == text@,
                from <= end <= chars@.len(),
                set == white_set(),
                word_rest == text@.skip(from as int),
                forall|k: int| 0 <= k < end - from ==> !set(#[trigger] word_rest[k]),
            decreases chars@.len() - end,
        {
            assert(word_rest[end - from] == chars@[end as int]);
            end += 1;
        }
        let word = text.substring_char(from, end);
        let ghost before = parts.deep_view();
        parts.push(word);
        proof {
            lemma_run_before_skip(word_rest, set, end - from);
            assert(run_before(word_rest.skip(end - from), set) == 0) by {
                if end < chars@.len() {
                    assert(word_rest.skip(end - from)[0] == chars@[end as int]);
                }
            }
            assert(word_rest.take(end - from) =~= word@);
            assert(word_rest.skip(end - from) =~= text@.skip(end as int));
            assert(parts.deep_view() =~= before.push(word@));
            assert(words(rest) == seq![word@] + words(text@.skip(end as int)));
            assert(before + (seq![word@] + words(text@.skip(end as int))) =~= before.push(word@)
                + words(text@.skip(end as int)));
            if end == from {
                assert(!set(chars@[from as int]));
            }
        }
        start = end;
    }
}

} // verus!
