//! The argument parser protocol: a type that can be read from the front of a
//! text hands back its value and the text that it did not consume.

use crate::text::{
    chars_of, find_run_end, lemma_run_end, lemma_words_skip, lemma_words_step, run_end,
    spec_split_words, words_from,
};
use vstd::prelude::*;

verus! {

/// Where the first token of `s` starts: behind the leading white space.
pub open spec fn token_start(s: Seq<char>) -> int {
    run_end(s, 0, true)
}

/// Where the first token of `s` ends: at the first white space behind its
/// start, or at the end of `s`.
pub open spec fn token_end(s: Seq<char>) -> int {
    run_end(s, token_start(s), false)
}

/// The first token of `s`. It is empty where `s` holds white space only.
pub open spec fn token_value(s: Seq<char>) -> Seq<char> {
    s.subrange(token_start(s), token_end(s))
}

/// What follows the first token of `s` and the one white space character
/// that ends it; empty where nothing ends the token.
pub open spec fn token_rest(s: Seq<char>) -> Seq<char> {
    if token_end(s) < s.len() {
        s.skip(token_end(s) + 1)
    } else {
        Seq::empty()
    }
}

/// A type whose values are written at the front of a text.
///
/// Whatever the type, the text handed back is the unconsumed end of the
/// input. What value a type reads, and from which texts, its implementation
/// states.
pub trait TryFromStr: Sized {
    /// Reads a value from the front of `input`: the value and the text
    /// behind it, or the detail of the failure.
    fn try_from_str(input: &str) -> (r: Result<(Self, &str), String>)
        ensures
            r matches Ok((_, rest)) ==> rest@.is_suffix_of(input@),
    ;
}

/// A plain token: the text up to the first white space.
impl TryFromStr for String {
    fn try_from_str(input: &str) -> (r: Result<(Self, &str), String>)
        ensures
            r matches Ok((value, rest)) && value@ == token_value(input@) && rest@ == token_rest(
                input@,
            ),
    {
        let chars = chars_of(input);
        let start = find_run_end(&chars, 0, true);
        let end = find_run_end(&chars, start, false);
        let value = input.substring_char(start, end).to_owned();
        let rest = if end < chars.len() {
            input.substring_char(end + 1, chars.len())
        } else {
            input.substring_char(chars.len(), chars.len())
        };
        proof {
            assert(rest@ =~= token_rest(input@));
            assert(rest@ =~= input@.subrange(input@.len() - rest@.len(), input@.len() as int));
        }
        Ok((value, rest))
    }
}

/// An argument that may be left out: absent on an empty text, else read as
/// `T` is.
impl<T: TryFromStr> TryFromStr for Option<T> {
    fn try_from_str(input: &str) -> (r: Result<(Self, &str), String>)
        ensures
            input@.len() == 0 ==> (r matches Ok((None, rest)) && rest@ == input@),
            input@.len() > 0 ==> match r {
                Ok((Some(value), rest)) => call_ensures(
                    T::try_from_str,
                    (input,),
                    Ok((value, rest)),
                ),
                Ok((None, _)) => false,
                Err(detail) => call_ensures(T::try_from_str, (input,), Err(detail)),
            },
    {
        if input.is_empty() {
            proof {
                assert(input@ =~= input@.subrange(0, 0));
            }
            return Ok((None, input));
        }
        match T::try_from_str(input) {
            Ok(t) => Ok((Some(t.0), t.1)),
            Err(e) => Err(e),
        }
    }
}

/// Reading tokens one after the other gives the words of the text, in
/// their order: the first token is the first word, and the text behind it
/// holds the other words. A text without a word gives the empty token and
/// leaves nothing.
pub proof fn law_tokens_are_words(s: Seq<char>)
    ensures
        spec_split_words(s).len() > 0 ==> token_value(s) == spec_split_words(s)[0]
            && spec_split_words(token_rest(s)) == spec_split_words(s).skip(1),
        spec_split_words(s).len() == 0 ==> token_value(s) == Seq::<char>::empty() && token_rest(s)
            == Seq::<char>::empty(),
{
    let start = token_start(s);
    let end = token_end(s);
    lemma_words_step(s, 0);
    if start < s.len() {
        let rest = words_from(s, end);
        assert(spec_split_words(s).skip(1) == rest);
        if end < s.len() {
            lemma_run_end(s, start, false);
            lemma_words_skip(s, end + 1, 0);
        }
    } else {
        assert(token_value(s) == Seq::<char>::empty());
    }
}

} // verus!
