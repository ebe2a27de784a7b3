//! Accounts of the Aside client: how its account listing is read and where an
//! account keeps its files.

use crate::paths::{join_all, joined_all, path_buf_bytes, path_bytes};
use crate::text::{
    chars_of, contains, digit, digits, first_line, is_word, lemma_last_line, lemma_lines_concat,
    lemma_lines_of_line, lemma_strip_end, lemma_strip_start, lemma_trimmed_before_white,
    lemma_words_before_white, lemma_words_concat, lemma_words_of_word, lines,
    mark_set, occurs, occurs_at, split_lines, split_words, strip, strip_start, trim,
    trim_marks, trimmed, white_set, white_space, words,
};
use std::path::{Path, PathBuf};
use vstd::prelude::*;
use vstd::utf8::{decode_utf8, is_ascii_chars, valid_utf8};

verus! {

/// A text in lower case, as `str::to_lowercase` gives it.
pub uninterp spec fn lowercase(text: Seq<char>) -> Seq<char>;

/// The text that `String::from_utf8_lossy` makes of bytes.
pub uninterp spec fn lossy_text(bytes: Seq<u8>) -> Seq<char>;

/// An ASCII letter in lower case; any other character as it is.
pub open spec fn ascii_lower(c: char) -> char {
    if 'A' <= c <= 'Z' {
        ((c as u32) + 32) as char
    } else {
        c
    }
}

/// A text in lower case. For ASCII characters this is letter by letter.
pub open spec fn lowered(text: Seq<char>) -> Seq<char> {
    if is_ascii_chars(text) {
        text.map_values(|c: char| ascii_lower(c))
    } else {
        lowercase(text)
    }
}

/// A line in lower case, without the white space around it.
pub open spec fn lower_line(line: Seq<char>) -> Seq<char> {
    lowered(trimmed(line))
}

/// The text of a program's output: the bytes decoded, or what
/// `String::from_utf8_lossy` makes of them where they are not valid UTF-8.
pub open spec fn output_text(bytes: Seq<u8>) -> Seq<char> {
    if valid_utf8(bytes) {
        decode_utf8(bytes)
    } else {
        lossy_text(bytes)
    }
}

/// An account id: the letter `u` and at least one digit.
pub open spec fn account_id(token: Seq<char>) -> bool {
    token.len() > 1 && token[0] == 'u' && digits(token.skip(1))
}

/// Whether a line in lower case says that an account is signed in or signed out.
pub open spec fn sign_state(lower: Seq<char>) -> Option<bool> {
    if occurs(lower, "signed in"@) {
        Some(true)
    } else if occurs(lower, "signed out"@) {
        Some(false)
    } else {
        None
    }
}

/// The first account id among the words of a line, with the marks around a word
/// taken off.
pub open spec fn first_account(words: Seq<Seq<char>>) -> Option<Seq<char>>
    decreases words.len(),
{
    if words.len() == 0 {
        None
    } else if account_id(strip(words[0], mark_set())) {
        Some(strip(words[0], mark_set()))
    } else {
        first_account(words.drop_first())
    }
}

/// The account that a line of the listing is about, given the line in lower case:
/// its id and whether it is signed in.
pub open spec fn account_row(line: Seq<char>, lower: Seq<char>) -> Option<(Seq<char>, bool)> {
    match (sign_state(lower), first_account(words(line))) {
        (Some(signed_in), Some(id)) => Some((id, signed_in)),
        _ => None,
    }
}

/// The accounts that the lines of a listing are about, in order.
pub open spec fn account_rows(lines: Seq<Seq<char>>) -> Seq<(Seq<char>, bool)>
    decreases lines.len(),
{
    if lines.len() == 0 {
        Seq::empty()
    } else {
        let before = account_rows(lines.drop_last());
        match account_row(lines.last(), lower_line(lines.last())) {
            Some(row) => before.push(row),
            None => before,
        }
    }
}

/// The ids of the accounts that are signed in, in order.
pub open spec fn signed_in_ids(rows: Seq<(Seq<char>, bool)>) -> Seq<Seq<char>>
    decreases rows.len(),
{
    if rows.len() == 0 {
        Seq::empty()
    } else {
        let before = signed_in_ids(rows.drop_last());
        if rows.last().1 {
            before.push(rows.last().0)
        } else {
            before
        }
    }
}

/// Calls `str::to_lowercase`. Claimed: the result depends on the text alone, and
/// in a text of ASCII characters it is the ASCII letters that change case, one by
/// one.
#[verifier::external_body]
fn to_lowercase(text: &str) -> (lower: String)
    ensures
        lower@ == lowercase(text@),
        is_ascii_chars(text@) ==> lower@ == text@.map_values(|c: char| ascii_lower(c)),
{
    text.to_lowercase()
}

/// Calls `String::from_utf8_lossy`. Claimed: the text depends on the bytes alone,
/// and bytes that are valid UTF-8 are decoded.
#[verifier::external_body]
fn from_utf8_lossy(bytes: &[u8]) -> (text: String)
    ensures
        text@ == lossy_text(bytes@),
        valid_utf8(bytes@) ==> text@ == decode_utf8(bytes@),
{
    String::from_utf8_lossy(bytes).into_owned()
}

/// Tells whether a token is an account id.
pub fn is_account_id(token: &str) -> (yes: bool)
    ensures
        yes == account_id(token@),
{
    let chars = chars_of(token);
    if chars.len() < 2 || chars[0] != 'u' {
        return false;
    }
    let ghost rest = token@.skip(1);
    let mut i: usize = 1;
    while i < chars.len()
        invariant
            chars@ == token@,
            rest == token@.skip(1),
            1 <= i <= chars@.len(),
            forall|k: int| 0 <= k < i - 1 ==> digit(#[trigger] rest[k]),
        decreases chars@.len() - i,
    {
        assert(rest[i - 1] == chars@[i as int]);
        if chars[i] < '0' || '9' < chars[i] {
            return false;
        }
        i += 1;
    }
    true
}

/// The account that a line of the listing is about, given the line in lower case:
/// its id and whether it is signed in. No other word of the line is read.
pub fn parse_account_line(line: &str, lower: &str) -> (row: Option<(String, bool)>)
    ensures
        row.deep_view() == account_row(line@, lower@),
{
    let signed_in = if contains(lower, "signed in") {
        true
    } else if contains(lower, "signed out") {
        false
    } else {
        return None;
    };
    let tokens = split_words(line);
    let ghost views = tokens.deep_view();
    let mut i: usize = 0;
    assert(views.skip(0) =~= views);
    while i < tokens.len()
        invariant
            i <= tokens@.len(),
            views == tokens.deep_view(),
            first_account(views) == first_account(views.skip(i as int)),
            views == words(line@),
            sign_state(lower@) == Some(signed_in),
        decreases tokens@.len() - i,
    {
        assert(views.skip(i as int)[0] == tokens@[i as int]@);
        assert(views.skip(i as int).drop_first() =~= views.skip(i + 1));
        let token = trim_marks(tokens[i]);
        if is_account_id(token) {
            return Some((token.to_owned(), signed_in));
        }
        i += 1;
    }
    None
}

/// Reads the output of `aside account list`: for each line that says whether an
/// account is signed in and names an account id, that id and whether it is.
/// Everything else, e-mail addresses included, is left out.
pub fn parse_account_list(text: &str) -> (accounts: Vec<(String, bool)>)
    ensures
        accounts.deep_view() == account_rows(lines(text@)),
{
    let listing = split_lines(text);
    let ghost views = listing.deep_view();
    let mut accounts: Vec<(String, bool)> = Vec::new();
    let mut i: usize = 0;
    while i < listing.len()
        invariant
            i <= listing@.len(),
            views == listing.deep_view(),
            accounts.deep_view() == account_rows(views.take(i as int)),
        decreases listing@.len() - i,
    {
        assert(views.take(i + 1).drop_last() =~= views.take(i as int));
        let lower = to_lowercase(trim(listing[i]));
        let ghost before = accounts.deep_view();
        if let Some(row) = parse_account_line(listing[i], lower.as_str()) {
            accounts.push(row);
            assert(accounts.deep_view() =~= before.push(row.deep_view()));
        }
        i += 1;
    }
    assert(views.take(i as int) =~= views);
    accounts
}

/// The ids of the accounts that are signed in, in order.
pub fn signed_in_accounts(accounts: Vec<(String, bool)>) -> (ids: Vec<String>)
    ensures
        ids.deep_view() == signed_in_ids(accounts.deep_view()),
{
    let ghost views = accounts.deep_view();
    let mut ids: Vec<String> = Vec::new();
    for account in it: accounts.into_iter()
        invariant
            it.seq() == accounts@,
            views == accounts.deep_view(),
            ids.deep_view() == signed_in_ids(views.take(it.index())),
    {
        let ghost i = it.index();
        assert(views.take(i + 1).drop_last() =~= views.take(i));
        assert(views.take(i + 1).last() == account.deep_view());
        let ghost before = ids.deep_view();
        let (id, signed_in) = account;
        if signed_in {
            ids.push(id);
            assert(ids.deep_view() =~= before.push(id@));
        }
    }
    assert(views.take(views.len() as int) =~= views);
    ids
}

/// How an attempt to list the accounts went.
#[derive(Debug, PartialEq, Eq)]
pub enum ListingOutcome {
    /// There is no client to ask.
    NoExecutable,
    /// The client could not be started.
    NotStarted,
    /// The client did not answer in time.
    TimedOut,
    /// The client ended, with this output.
    Exited { success: bool, stdout: Vec<u8> },
}

/// The accounts that are signed in, if the client could be asked. A failure is
/// never an error: it only means that nothing is known.
pub fn accounts_from_listing(outcome: &ListingOutcome) -> (ids: Option<Vec<String>>)
    ensures
        ids.deep_view() == (match outcome {
            ListingOutcome::Exited { success: true, stdout } => Some(
                signed_in_ids(account_rows(lines(output_text(stdout@)))),
            ),
            _ => None,
        }),
{
    match outcome {
        ListingOutcome::Exited { success, stdout } => {
            if *success {
                let text = from_utf8_lossy(stdout.as_slice());
                Some(signed_in_accounts(parse_account_list(text.as_str())))
            } else {
                None
            }
        },
        _ => None,
    }
}

/// The directory of an account below the home directory: `u0` keeps its files in
/// `.aside/u/0`. Nothing for what is not an account id.
pub fn account_dir(home: &Path, account_id: &str) -> (dir: Option<PathBuf>)
    ensures
        match dir {
            Some(dir) => self::account_id(account_id@) && path_buf_bytes(dir) == joined_all(
                path_bytes(home),
                seq![".aside"@, "u"@, account_id@.skip(1)],
            ),
            None => !self::account_id(account_id@),
        },
{
    if !is_account_id(account_id) {
        return None;
    }
    let count = account_id.unicode_len();
    let number = account_id.substring_char(1, count);
    assert(number@ =~= account_id@.skip(1));
    let more: [&str; 2] = ["u", number];
    assert(seq![".aside"@] + more.deep_view() =~= seq![".aside"@, "u"@, account_id@.skip(1)]);
    Some(join_all(home, ".aside", &more))
}

/// What a listing lists is account ids, so every listed account has a directory.
pub proof fn listed_accounts_are_account_ids(lines: Seq<Seq<char>>)
    ensures
        forall|i: int|
            0 <= i < account_rows(lines).len() ==> account_id((#[trigger] account_rows(lines)[i]).0),
    decreases lines.len(),
{
    if lines.len() > 0 {
        let before = account_rows(lines.drop_last());
        listed_accounts_are_account_ids(lines.drop_last());
        lemma_first_account(words(lines.last()));
        assert forall|i: int| 0 <= i < account_rows(lines).len() implies account_id(
            (#[trigger] account_rows(lines)[i]).0,
        ) by {
            if i < before.len() {
                assert(account_rows(lines)[i] == before[i]);
            }
        }
    }
}

proof fn lemma_first_account(words: Seq<Seq<char>>)
    ensures
        first_account(words) matches Some(id) ==> account_id(id),
    decreases words.len(),
{
    if words.len() > 0 {
        lemma_first_account(words.drop_first());
    }
}

/// An account counts as signed in exactly if the listing has it as signed in.
pub proof fn signed_in_ids_are_listed(rows: Seq<(Seq<char>, bool)>, id: Seq<char>)
    ensures
        signed_in_ids(rows).contains(id) <==> rows.contains((id, true)),
    decreases rows.len(),
{
    if rows.len() > 0 {
        let rest = rows.drop_last();
        let before = signed_in_ids(rest);
        signed_in_ids_are_listed(rest, id);
        assert(rows =~= rest.push(rows.last()));
        if rows.contains((id, true)) && rows.last() != (id, true) {
            let i = choose|i: int| 0 <= i < rows.len() && rows[i] == (id, true);
            assert(rest[i] == (id, true));
        }
        if rest.contains((id, true)) {
            let i = choose|i: int| 0 <= i < rest.len() && rest[i] == (id, true);
            assert(rows[i] == (id, true));
        }
        if rows.last() == (id, true) {
            assert(before.push(id).last() == id);
            assert(rows[rows.len() - 1] == (id, true));
        }
        if before.contains(id) {
            let i = choose|i: int| 0 <= i < before.len() && before[i] == id;
            assert(signed_in_ids(rows)[i] == id);
        }
        if signed_in_ids(rows).contains(id) && !before.contains(id) {
            let i = choose|i: int| 0 <= i < signed_in_ids(rows).len() && signed_in_ids(rows)[i] == id;
            if i < before.len() {
                assert(before[i] == id);
            }
        }
    }
}

/// The rows of lines in a row are those of the first lines and then of the others.
pub(crate) proof fn lemma_account_rows_concat(a: Seq<Seq<char>>, b: Seq<Seq<char>>)
    ensures
        account_rows(a + b) == account_rows(a) + account_rows(b),
    decreases b.len(),
{
    if b.len() == 0 {
        assert(a + b =~= a);
        assert(account_rows(a) + Seq::empty() =~= account_rows(a));
    } else {
        assert((a + b).drop_last() =~= a + b.drop_last());
        lemma_account_rows_concat(a, b.drop_last());
        assert(account_rows(a + b) =~= account_rows(a) + account_rows(b));
    }
}

/// The rows of one line.
pub(crate) proof fn lemma_account_rows_of_line(line: Seq<char>)
    ensures
        account_rows(seq![line]) == match account_row(line, lower_line(line)) {
            Some(row) => seq![row],
            None => Seq::empty(),
        },
{
    assert(seq![line].drop_last() =~= Seq::empty());
    assert(account_rows(seq![line].drop_last()) =~= Seq::empty());
    if let Some(row) = account_row(line, lower_line(line)) {
        assert(account_rows(seq![line]) =~= seq![row]);
    }
}

/// An empty line is about no account.
proof fn lemma_empty_line()
    ensures
        account_row(Seq::empty(), lower_line(Seq::empty())) is None,
{
    let empty = Seq::<char>::empty();
    let lower = lower_line(empty);
    assert(lower =~= empty);
    reveal_strlit("signed in");
    reveal_strlit("signed out");
    assert(!occurs(lower, "signed in"@));
    assert(!occurs(lower, "signed out"@));
}

/// A character that a part does not hold, at the end of a text, does not matter for
/// whether the part occurs.
proof fn lemma_occurs_before(text: Seq<char>, c: char, part: Seq<char>)
    requires
        part.len() > 0,
        part.last() != c,
    ensures
        occurs(text.push(c), part) == occurs(text, part),
{
    let all = text.push(c);
    if occurs(all, part) {
        let i = choose|i: int| #[trigger] occurs_at(all, part, i);
        if i + part.len() == all.len() {
            assert(all.subrange(i, i + part.len()).last() == c);
        }
        assert(text.subrange(i, i + part.len()) =~= all.subrange(i, i + part.len()));
        assert(occurs_at(text, part, i));
    }
    if occurs(text, part) {
        let i = choose|i: int| #[trigger] occurs_at(text, part, i);
        assert(all.subrange(i, i + part.len()) =~= text.subrange(i, i + part.len()));
        assert(occurs_at(all, part, i));
    }
}

/// The same for a character at the start.
proof fn lemma_occurs_after(c: char, text: Seq<char>, part: Seq<char>)
    requires
        part.len() > 0,
        part[0] != c,
    ensures
        occurs(seq![c] + text, part) == occurs(text, part),
{
    let all = seq![c] + text;
    if occurs(all, part) {
        let i = choose|i: int| #[trigger] occurs_at(all, part, i);
        if i == 0 {
            assert(all.subrange(0, part.len() as int)[0] == c);
        }
        assert(text.subrange(i - 1, i - 1 + part.len()) =~= all.subrange(i, i + part.len()));
        assert(occurs_at(text, part, i - 1));
    }
    if occurs(text, part) {
        let i = choose|i: int| #[trigger] occurs_at(text, part, i);
        assert(all.subrange(i + 1, i + 1 + part.len()) =~= text.subrange(i, i + part.len()));
        assert(occurs_at(all, part, i + 1));
    }
}

/// A part without white space at its ends occurs in a text exactly if it occurs in the
/// text without white space around it.
proof fn lemma_occurs_trimmed(text: Seq<char>, part: Seq<char>)
    requires
        part.len() > 0,
        !white_space(part[0]),
        !white_space(part.last()),
    ensures
        occurs(trimmed(text), part) == occurs(text, part),
    decreases text.len(),
{
    let white = white_set();
    if text.len() > 0 && white(text[0]) {
        lemma_occurs_trimmed(text.drop_first(), part);
        lemma_occurs_after(text[0], text.drop_first(), part);
        assert(seq![text[0]] + text.drop_first() =~= text);
    } else if text.len() > 0 && white(text.last()) {
        let rest = text.drop_last();
        assert(text[0] == rest[0]);
        assert(strip_start(text, white) == text);
        assert(strip_start(rest, white) == rest);
        lemma_occurs_trimmed(rest, part);
        lemma_occurs_before(rest, text.last(), part);
        assert(rest.push(text.last()) =~= text);
    }
}

/// A text of ASCII characters in lower case.
spec fn ascii_lowered(text: Seq<char>) -> Seq<char> {
    text.map_values(|c: char| ascii_lower(c))
}

/// Lower case keeps white space as it is, so that it does not matter which comes first,
/// lower case or trimming.
proof fn lemma_lowered_trimmed(text: Seq<char>)
    ensures
        trimmed(ascii_lowered(text)) == ascii_lowered(trimmed(text)),
    decreases text.len(),
{
    let white = white_set();
    let lower = ascii_lowered(text);
    if text.len() > 0 {
        assert(white(lower[0]) == white(text[0]));
        assert(white(lower.last()) == white(text.last()));
        if white(text[0]) {
            lemma_lowered_trimmed(text.drop_first());
            assert(lower.drop_first() =~= ascii_lowered(text.drop_first()));
        } else if white(text.last()) {
            let rest = text.drop_last();
            lemma_lowered_trimmed(rest);
            assert(lower.drop_last() =~= ascii_lowered(rest));
            assert(text[0] == rest[0]);
            assert(strip_start(text, white) == text);
            assert(strip_start(rest, white) == rest);
            assert(lower[0] == lower.drop_last()[0]);
            assert(strip_start(lower, white) == lower);
            assert(strip_start(lower.drop_last(), white) == lower.drop_last());
        }
    }
}

/// White space around a line does not decide whether it says that an account is signed
/// in: in a line of ASCII characters, where it is known letter by letter what lower case
/// makes of it, the whole line says the same as the line without that white space.
pub proof fn white_space_around_a_line_does_not_matter(line: Seq<char>)
    requires
        is_ascii_chars(line),
    ensures
        sign_state(lowered(line)) == sign_state(lower_line(line)),
{
    let white = white_set();
    let rest = strip_start(line, white);
    lemma_strip_start(line, white);
    lemma_strip_end(rest, white);
    assert(is_ascii_chars(trimmed(line)));
    lemma_lowered_trimmed(line);
    reveal_strlit("signed in");
    reveal_strlit("signed out");
    lemma_occurs_trimmed(ascii_lowered(line), "signed in"@);
    lemma_occurs_trimmed(ascii_lowered(line), "signed out"@);
}

/// White space at the end of a line does not matter.
proof fn lemma_white_at_end(line: Seq<char>, c: char)
    requires
        white_space(c),
    ensures
        account_row(line.push(c), lower_line(line.push(c))) == account_row(
            line,
            lower_line(line),
        ),
{
    lemma_words_before_white(line, c);
    lemma_trimmed_before_white(line, c);
}

/// Two listings with a line feed between them list the accounts of the first and then
/// those of the second.
pub proof fn joined_listings_list_both(a: Seq<char>, b: Seq<char>)
    ensures
        account_rows(lines(a + "\n"@ + b)) == account_rows(lines(a)) + account_rows(lines(b)),
{
    let text = a.push('\n');
    reveal_strlit("\n");
    assert(a + "\n"@ =~= text);
    lemma_lines_concat(text, b);
    lemma_account_rows_concat(lines(text), lines(b));
    lemma_closing_line_feed(a);
}

/// A line feed at the end of a listing does not matter.
proof fn lemma_closing_line_feed(a: Seq<char>)
    ensures
        account_rows(lines(a.push('\n'))) == account_rows(lines(a)),
{
    let empty = Seq::<char>::empty();
    let feed = seq!['\n'];
    assert(feed.skip(1) =~= empty);
    assert(lines(empty) =~= Seq::empty());
    assert(account_rows(lines(empty)) =~= Seq::empty());
    if a.len() == 0 || a.last() == '\n' {
        lemma_lines_concat(a, feed);
        assert(a + feed =~= a.push('\n'));
        lemma_lines_of_line(empty, feed);
        assert(empty + feed =~= feed);
        assert(lines(feed) =~= seq![empty]);
        lemma_account_rows_concat(lines(a), seq![empty]);
        lemma_account_rows_of_line(empty);
        lemma_empty_line();
        assert(account_rows(lines(a)) + Seq::empty() =~= account_rows(lines(a)));
    } else {
        let cut = lemma_last_line(a);
        let head = a.take(cut);
        let line = a.skip(cut);
        let kept = first_line(line + feed);
        assert(lines(a).last() == line);
        assert(line.last() == a.last());
        assert(a.push('\n') =~= head + (line + feed));
        lemma_lines_concat(head, line + feed);
        assert forall|i: int| 0 <= i < line.len() implies #[trigger] line[i] != '\n' by {
            assert(line[i] == a[cut + i]);
        }
        lemma_lines_of_line(line, feed);
        assert(lines(line + feed) =~= seq![kept]);
        assert(lines(a) =~= lines(head) + seq![line]);
        lemma_account_rows_concat(lines(head), seq![line]);
        lemma_account_rows_concat(lines(head), seq![kept]);
        lemma_account_rows_of_line(line);
        lemma_account_rows_of_line(kept);
        if line.last() == '\r' {
            assert(line =~= line.drop_last().push('\r'));
            lemma_white_at_end(line.drop_last(), '\r');
        }
    }
}

proof fn lemma_first_account_concat(a: Seq<Seq<char>>, b: Seq<Seq<char>>)
    ensures
        first_account(a + b) == (if first_account(a) is Some {
            first_account(a)
        } else {
            first_account(b)
        }),
    decreases a.len(),
{
    if a.len() == 0 {
        assert(a + b =~= b);
    } else {
        assert((a + b).drop_first() =~= a.drop_first() + b);
        lemma_first_account_concat(a.drop_first(), b);
    }
}

/// The account that a line names is the first before a word or, failing that, the first
/// behind it, if the word is no account id itself.
proof fn lemma_account_around_word(pre: Seq<char>, word: Seq<char>, post: Seq<char>)
    requires
        pre.len() > 0 ==> white_space(pre.last()),
        post.len() > 0 ==> white_space(post[0]),
        is_word(word),
        !account_id(strip(word, mark_set())),
    ensures
        first_account(words(pre + word + post)) == (if first_account(words(pre)) is Some {
            first_account(words(pre))
        } else {
            first_account(words(post))
        }),
{
    assert(pre + word + post =~= pre + (word + post));
    lemma_words_concat(pre, word + post);
    lemma_words_of_word(word, post);
    lemma_first_account_concat(words(pre), words(word + post));
    lemma_first_account_concat(seq![word], words(post));
    assert(seq![word].drop_first() =~= Seq::empty());
    assert(first_account(seq![word].drop_first()) is None);
    assert(first_account(seq![word]) is None);
}

/// The other words of a listing never reach the result: a word of a line, such as an
/// e-mail address, can be any other word, as long as neither is an account id and the
/// line goes on saying the same of being signed in or out. The line stands between
/// `head` and `tail`, and the word between `pre` and `post`.
pub proof fn other_words_never_matter(
    head: Seq<char>,
    pre: Seq<char>,
    word: Seq<char>,
    other: Seq<char>,
    post: Seq<char>,
    tail: Seq<char>,
)
    requires
        head.len() > 0 ==> head.last() == '\n',
        tail.len() > 0 ==> tail[0] == '\n',
        forall|i: int| 0 <= i < pre.len() ==> #[trigger] pre[i] != '\n',
        forall|i: int| 0 <= i < post.len() ==> #[trigger] post[i] != '\n',
        pre.len() > 0 ==> white_space(pre.last()),
        post.len() > 0 ==> white_space(post[0]),
        is_word(word),
        is_word(other),
        !account_id(strip(word, mark_set())),
        !account_id(strip(other, mark_set())),
        sign_state(lower_line(first_line(pre + word + post + tail))) == sign_state(
            lower_line(first_line(pre + other + post + tail)),
        ),
    ensures
        account_rows(lines(head + (pre + word + post + tail))) == account_rows(
            lines(head + (pre + other + post + tail)),
        ),
{
    let rest = if tail.len() > 0 {
        tail.skip(1)
    } else {
        Seq::empty()
    };
    let end = if tail.len() > 0 && post.len() > 0 && post.last() == '\r' {
        post.drop_last()
    } else {
        post
    };
    lemma_line_around_word(head, pre, word, post, tail, rest, end);
    lemma_line_around_word(head, pre, other, post, tail, rest, end);
    lemma_account_around_word(pre, word, end);
    lemma_account_around_word(pre, other, end);
}

/// The rows of a listing, by the line with a word in it and what stands around it.
proof fn lemma_line_around_word(
    head: Seq<char>,
    pre: Seq<char>,
    word: Seq<char>,
    post: Seq<char>,
    tail: Seq<char>,
    rest: Seq<char>,
    end: Seq<char>,
)
    requires
        head.len() > 0 ==> head.last() == '\n',
        tail.len() > 0 ==> tail[0] == '\n',
        forall|i: int| 0 <= i < pre.len() ==> #[trigger] pre[i] != '\n',
        forall|i: int| 0 <= i < post.len() ==> #[trigger] post[i] != '\n',
        is_word(word),
        rest == (if tail.len() > 0 {
            tail.skip(1)
        } else {
            Seq::empty()
        }),
        end == (if tail.len() > 0 && post.len() > 0 && post.last() == '\r' {
            post.drop_last()
        } else {
            post
        }),
    ensures
        first_line(pre + word + post + tail) == pre + word + end,
        account_rows(lines(head + (pre + word + post + tail))) == account_rows(lines(head)) + (
        match account_row(pre + word + end, lower_line(pre + word + end)) {
            Some(row) => seq![row],
            None => Seq::empty(),
        }) + account_rows(lines(rest)),
{
    let line = pre + word + post;
    let kept = pre + word + end;
    assert forall|i: int| 0 <= i < line.len() implies #[trigger] line[i] != '\n' by {
        if i < pre.len() {
            assert(line[i] == pre[i]);
        } else if i < pre.len() + word.len() {
            assert(line[i] == word[i - pre.len()]);
        } else {
            assert(line[i] == post[i - pre.len() - word.len()]);
        }
    }
    lemma_lines_concat(head, line + tail);
    lemma_lines_of_line(line, tail);
    if post.len() > 0 {
        assert(line.last() == post.last());
        assert(line.drop_last() =~= pre + word + post.drop_last());
    } else {
        assert(line.last() == word.last());
        assert(!white_space(word[word.len() - 1]));
    }
    assert(first_line(line + tail) == kept);
    lemma_account_rows_concat(lines(head), seq![kept] + lines(rest));
    lemma_account_rows_concat(seq![kept], lines(rest));
    lemma_account_rows_of_line(kept);
    assert(account_rows(lines(head)) + (account_rows(seq![kept]) + account_rows(lines(rest)))
        =~= account_rows(lines(head)) + account_rows(seq![kept]) + account_rows(lines(rest)));
}

} // verus!
