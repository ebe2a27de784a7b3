//! What an account listing says.

use crate::accounts::{
    account_id, account_row, account_rows, first_account, lemma_account_rows_concat,
    lemma_account_rows_of_line, lossy_text, lower_line, lowercase, lowered, output_text, sign_state,
    signed_in_ids,
};
use crate::text::{digit, mark_set, occurs, strip, trimmed, words};
use vstd::prelude::*;
use vstd::utf8::{decode_utf8, is_ascii_chars, valid_utf8};

verus! {

/// An account id is the letter `u` and then one ASCII digit or more, and nothing else.
pub open spec fn is_id(token: Seq<char>) -> bool {
    &&& token.len() >= 2
    &&& token[0] == 'u'
    &&& forall|i: int| 1 <= i < token.len() ==> '0' <= #[trigger] token[i] <= '9'
}

/// Account ids are these and no others.
pub proof fn account_ids_are_u_and_digits(token: Seq<char>)
    ensures
        account_id(token) <==> is_id(token),
{
    let rest = token.skip(1);
    if account_id(token) {
        assert forall|i: int| 1 <= i < token.len() implies '0' <= #[trigger] token[i] <= '9' by {
            assert(rest[i - 1] == token[i]);
            assert(digit(rest[i - 1]));
        }
    }
    if is_id(token) {
        assert forall|i: int| 0 <= i < rest.len() implies digit(
            #[trigger] rest[i],
        ) by {
            assert(rest[i] == token[i + 1]);
        }
    }
}

/// The word at this position is an account id, without the marks around it.
pub open spec fn names_account(words: Seq<Seq<char>>, i: int) -> bool {
    0 <= i < words.len() && is_id(strip(words[i], mark_set()))
}

/// Of the words of a line the first that is an account id without the marks around it
/// names the account, whole; there is none exactly if no word is.
pub proof fn first_account_id_counts(words: Seq<Seq<char>>, i: int)
    ensures
        names_account(words, i) ==> first_account(words) is Some,
        names_account(words, i) && (forall|k: int|
            0 <= k < i ==> !#[trigger] names_account(words, k)) ==> first_account(words) == Some(
            strip(words[i], mark_set()),
        ),
        (forall|k: int| !#[trigger] names_account(words, k)) ==> first_account(words) is None,
    decreases words.len(),
{
    if words.len() > 0 {
        let first = strip(words[0], mark_set());
        let rest = words.drop_first();
        account_ids_are_u_and_digits(first);
        assert(names_account(words, 0) == account_id(first));
        assert forall|k: int| #[trigger] names_account(rest, k) implies names_account(
            words,
            k + 1,
        ) by {
            assert(words[k + 1] == rest[k]);
        }
        if 0 < i < words.len() {
            assert(words[i] == rest[i - 1]);
        }
        first_account_id_counts(rest, i - 1);
    }
}

/// A line is about an account exactly if it says, in lower case, that one is signed in or
/// signed out, and names an account id; signed in counts where it says both.
pub proof fn line_is_about_the_account_it_names(line: Seq<char>, lower: Seq<char>)
    ensures
        account_row(line, lower) == match first_account(words(line)) {
            Some(id) => if occurs(lower, "signed in"@) {
                Some((id, true))
            } else if occurs(lower, "signed out"@) {
                Some((id, false))
            } else {
                None
            },
            None => None,
        },
        sign_state(lower) == if occurs(lower, "signed in"@) {
            Some(true)
        } else if occurs(lower, "signed out"@) {
            Some(false)
        } else {
            None
        },
{
}

/// Lower case of ASCII changes the letters from `A` to `Z` and nothing else, one by one;
/// other texts are as the standard library has them. A line is taken without the white
/// space around it.
pub proof fn lower_case_is_letter_by_letter(text: Seq<char>)
    ensures
        lower_line(text) == lowered(trimmed(text)),
        is_ascii_chars(text) ==> lowered(text).len() == text.len() && forall|i: int|
            0 <= i < text.len() ==> #[trigger] lowered(text)[i] == if 'A' <= text[i] <= 'Z' {
                ((text[i] as u32) + 32) as char
            } else {
                text[i]
            },
        !is_ascii_chars(text) ==> lowered(text) == lowercase(text),
{
}

/// Every line of a listing counts, in order: lines list what the first ones list and then
/// what the others do, and one line lists the account it is about, if any.
pub proof fn every_line_counts(a: Seq<Seq<char>>, b: Seq<Seq<char>>, line: Seq<char>)
    ensures
        account_rows(a + b) == account_rows(a) + account_rows(b),
        account_rows(seq![line]) == match account_row(line, lower_line(line)) {
            Some(row) => seq![row],
            None => Seq::empty(),
        },
        account_rows(Seq::empty()).len() == 0,
{
    lemma_account_rows_concat(a, b);
    lemma_account_rows_of_line(line);
}

/// The signed-in accounts are those that are listed as such, all of them and in order.
pub proof fn signed_in_accounts_are_kept(
    a: Seq<(Seq<char>, bool)>,
    b: Seq<(Seq<char>, bool)>,
    id: Seq<char>,
    signed_in: bool,
)
    ensures
        signed_in_ids(a + b) == signed_in_ids(a) + signed_in_ids(b),
        signed_in_ids(seq![(id, signed_in)]) == if signed_in {
            seq![id]
        } else {
            Seq::empty()
        },
        signed_in_ids(Seq::empty()).len() == 0,
    decreases b.len(),
{
    let one = seq![(id, signed_in)];
    assert(one.drop_last() =~= Seq::empty());
    assert(signed_in_ids(one.drop_last()) =~= Seq::empty());
    assert(signed_in_ids(one) =~= if signed_in {
        seq![id]
    } else {
        Seq::empty()
    });
    if b.len() == 0 {
        assert(a + b =~= a);
        assert(signed_in_ids(a) + signed_in_ids(b) =~= signed_in_ids(a));
    } else {
        assert((a + b).drop_last() =~= a + b.drop_last());
        signed_in_accounts_are_kept(a, b.drop_last(), id, signed_in);
        assert(signed_in_ids(a + b) =~= signed_in_ids(a) + signed_in_ids(b));
    }
}

/// Output that is valid UTF-8 is decoded whole; other output is as the standard library
/// reads it.
pub proof fn output_is_read_whole(bytes: Seq<u8>)
    ensures
        output_text(bytes) == if valid_utf8(bytes) {
            decode_utf8(bytes)
        } else {
            lossy_text(bytes)
        },
{
}

} // verus!
