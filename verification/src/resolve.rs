//! The match resolver: which command a text invokes, by which of its names,
//! and what text is left for the command's arguments.

use crate::registry::Registry;
use crate::text::{
    chars_of, find_run_end, lemma_trim_is_trimmed, lemma_trim_keeps_words, lemma_words_skip,
    lemma_words_step, run_end, spec_is_whitespace, spec_split_words, spec_trim, split_words,
    texts, trim, words_from,
};
use vstd::prelude::*;

verus! {

/// The first position at or after `from` at which `words` and `name` differ
/// or one of them ends.
pub open spec fn agree_from(words: Seq<Seq<char>>, name: Seq<Seq<char>>, from: int) -> int
    decreases words.len() - from,
{
    if 0 <= from < words.len() && from < name.len() && words[from] == name[from] {
        agree_from(words, name, from + 1)
    } else {
        from
    }
}

/// The number of leading words on which `words` and `name` agree.
pub open spec fn agreeing_words(words: Seq<Seq<char>>, name: Seq<Seq<char>>) -> nat {
    agree_from(words, name, 0) as nat
}

/// The words counted by `agreeing_words` are equal one by one, and the count
/// stops at the first difference or at the end of either sequence.
pub proof fn lemma_agree_from(words: Seq<Seq<char>>, name: Seq<Seq<char>>, from: int)
    requires
        0 <= from <= words.len(),
        from <= name.len(),
    ensures
        from <= agree_from(words, name, from) <= words.len(),
        agree_from(words, name, from) <= name.len(),
        forall|k: int| from <= k < agree_from(words, name, from) ==> words[k] == name[k],
        agree_from(words, name, from) < words.len() && agree_from(words, name, from) < name.len()
            ==> words[agree_from(words, name, from)] != name[agree_from(words, name, from)],
    decreases words.len() - from,
{
    if from < words.len() && from < name.len() && words[from] == name[from] {
        lemma_agree_from(words, name, from + 1);
    }
}

/// Whether `table` has a name `j` of a command `i`. A table holds, for each
/// command in registration order, the command's name and then its aliases.
pub open spec fn is_entry(table: Seq<Seq<Seq<char>>>, i: int, j: int) -> bool {
    0 <= i < table.len() && 0 <= j < table[i].len()
}

/// The match length of name `j` of command `i` against `text`: the number
/// of leading words that the two share.
pub open spec fn match_len_at(table: Seq<Seq<Seq<char>>>, text: Seq<char>, i: int, j: int) -> nat {
    agreeing_words(spec_split_words(text), spec_split_words(table[i][j]))
}

/// Whether name `j2` of command `i2` is compared before name `j` of command
/// `i`: commands go in registration order, and within a command the name
/// goes first and the aliases follow in their order.
pub open spec fn earlier(i2: int, j2: int, i: int, j: int) -> bool {
    i2 < i || (i2 == i && j2 < j)
}

/// Whether name `j` of command `i` is the match for `text`: it shares at
/// least the first word with `text`, no name shares more, and none that is
/// compared earlier shares as much.
pub open spec fn wins(table: Seq<Seq<Seq<char>>>, text: Seq<char>, i: int, j: int) -> bool {
    &&& is_entry(table, i, j)
    &&& match_len_at(table, text, i, j) >= 1
    &&& forall|i2: int, j2: int|
        is_entry(table, i2, j2) ==> #[trigger] match_len_at(table, text, i2, j2) <= match_len_at(
            table,
            text,
            i,
            j,
        )
    &&& forall|i2: int, j2: int|
        is_entry(table, i2, j2) && earlier(i2, j2, i, j) ==> #[trigger] match_len_at(
            table,
            text,
            i2,
            j2,
        ) < match_len_at(table, text, i, j)
}

/// Whether no name of `table` shares its first word with `text`.
pub open spec fn no_match(table: Seq<Seq<Seq<char>>>, text: Seq<char>) -> bool {
    forall|i: int, j: int|
        is_entry(table, i, j) ==> #[trigger] match_len_at(table, text, i, j) == 0
}

/// What resolution found: a command, the name by which the text invoked it,
/// and the number of leading words that text and name share.
#[derive(Debug, Clone, PartialEq, Eq)]
pub struct MatchCandidate {
    pub match_len: usize,
    pub command_index: usize,
    pub alias: String,
}

/// A `MatchCandidate` with its name as characters.
pub struct MatchView {
    pub match_len: nat,
    pub command_index: int,
    pub alias: Seq<char>,
}

impl View for MatchCandidate {
    type V = MatchView;

    open spec fn view(&self) -> MatchView {
        MatchView {
            match_len: self.match_len as nat,
            command_index: self.command_index as int,
            alias: self.alias@,
        }
    }
}

/// The match for `text` in `table`, if there is one.
pub open spec fn spec_resolve(table: Seq<Seq<Seq<char>>>, text: Seq<char>) -> Option<MatchView> {
    if exists|i: int, j: int| wins(table, text, i, j) {
        let (i, j) = choose|i: int, j: int| wins(table, text, i, j);
        Some(
            MatchView {
                match_len: match_len_at(table, text, i, j),
                command_index: i,
                alias: table[i][j],
            },
        )
    } else {
        None
    }
}

/// A text has at most one match.
pub proof fn lemma_match_is_unique(
    table: Seq<Seq<Seq<char>>>,
    text: Seq<char>,
    i: int,
    j: int,
    i2: int,
    j2: int,
)
    requires
        wins(table, text, i, j),
        wins(table, text, i2, j2),
    ensures
        i == i2,
        j == j2,
{
    if earlier(i, j, i2, j2) {
        assert(match_len_at(table, text, i, j) < match_len_at(table, text, i2, j2));
        assert(match_len_at(table, text, i2, j2) <= match_len_at(table, text, i, j));
    } else if earlier(i2, j2, i, j) {
        assert(match_len_at(table, text, i2, j2) < match_len_at(table, text, i, j));
        assert(match_len_at(table, text, i, j) <= match_len_at(table, text, i2, j2));
    }
}

/// The match for a text, where there is one, is what `spec_resolve` gives.
pub proof fn lemma_resolve_gives_match(table: Seq<Seq<Seq<char>>>, text: Seq<char>, i: int, j: int)
    requires
        wins(table, text, i, j),
    ensures
        spec_resolve(table, text) == Some(
            MatchView {
                match_len: match_len_at(table, text, i, j),
                command_index: i,
                alias: table[i][j],
            },
        ),
{
    let (i2, j2) = choose|i2: int, j2: int| wins(table, text, i2, j2);
    lemma_match_is_unique(table, text, i, j, i2, j2);
}

/// Where no name shares its first word with the text, `spec_resolve` gives
/// nothing.
pub proof fn lemma_resolve_gives_none(table: Seq<Seq<Seq<char>>>, text: Seq<char>)
    requires
        no_match(table, text),
    ensures
        spec_resolve(table, text) is None,
{
    if exists|i: int, j: int| wins(table, text, i, j) {
        let (i, j) = choose|i: int, j: int| wins(table, text, i, j);
        assert(match_len_at(table, text, i, j) == 0);
    }
}

/// Counts the leading words on which `words` and the words of `name` agree.
pub fn match_len(words: &Vec<String>, name: &str) -> (n: usize)
    ensures
        n == agreeing_words(texts(words@), spec_split_words(name@)),
{
    let name_words = split_words(name);
    let ghost a = texts(words@);
    let ghost b = texts(name_words@);
    let mut k: usize = 0;
    while k < words.len() && k < name_words.len() && text_matches(&words[k], &name_words[k])
        invariant
            k <= words.len(),
            k <= name_words.len(),
            a == texts(words@),
            b == texts(name_words@),
            agree_from(a, b, 0) == agree_from(a, b, k as int),
        decreases words.len() - k,
    {
        k += 1;
    }
    k
}

/// Tells whether two words are the same.
fn text_matches(a: &String, b: &String) -> (same: bool)
    ensures
        same == (a@ == b@),
{
    *a == *b
}

/// Whether name `j` of command `i` is the match for `text` among the names
/// that are compared before name `limit_j` of command `limit_i`.
spec fn leads(
    table: Seq<Seq<Seq<char>>>,
    text: Seq<char>,
    limit_i: int,
    limit_j: int,
    i: int,
    j: int,
) -> bool {
    &&& is_entry(table, i, j)
    &&& earlier(i, j, limit_i, limit_j)
    &&& match_len_at(table, text, i, j) >= 1
    &&& forall|i2: int, j2: int|
        is_entry(table, i2, j2) && earlier(i2, j2, limit_i, limit_j) ==> #[trigger] match_len_at(
            table,
            text,
            i2,
            j2,
        ) <= match_len_at(table, text, i, j)
    &&& forall|i2: int, j2: int|
        is_entry(table, i2, j2) && earlier(i2, j2, i, j) ==> #[trigger] match_len_at(
            table,
            text,
            i2,
            j2,
        ) < match_len_at(table, text, i, j)
}

/// Whether none of the names that are compared before name `limit_j` of
/// command `limit_i` shares its first word with `text`.
spec fn none_before(
    table: Seq<Seq<Seq<char>>>,
    text: Seq<char>,
    limit_i: int,
    limit_j: int,
) -> bool {
    forall|i: int, j: int|
        is_entry(table, i, j) && earlier(i, j, limit_i, limit_j) ==> #[trigger] match_len_at(
            table,
            text,
            i,
            j,
        ) == 0
}

/// Whether `place` is where the match for `text` stands among the names
/// that are compared before name `limit_j` of command `limit_i`.
spec fn best_before(
    table: Seq<Seq<Seq<char>>>,
    text: Seq<char>,
    limit_i: int,
    limit_j: int,
    place: Option<(int, int)>,
) -> bool {
    match place {
        None => none_before(table, text, limit_i, limit_j),
        Some((i, j)) => leads(table, text, limit_i, limit_j, i, j),
    }
}

/// The place of the best match once name `j` of command `i` has been
/// compared too: that name's place if it shares a word with `text` and
/// strictly more words than the best match so far, else the place so far.
spec fn next_place(
    table: Seq<Seq<Seq<char>>>,
    text: Seq<char>,
    place: Option<(int, int)>,
    i: int,
    j: int,
) -> Option<(int, int)> {
    if match_len_at(table, text, i, j) >= 1 && (place matches Some((bi, bj)) ==> match_len_at(
        table,
        text,
        i,
        j,
    ) > match_len_at(table, text, bi, bj)) {
        Some((i, j))
    } else {
        place
    }
}

/// One comparison more keeps `best_before`.
proof fn lemma_one_more(
    table: Seq<Seq<Seq<char>>>,
    text: Seq<char>,
    i: int,
    j: int,
    place: Option<(int, int)>,
)
    requires
        is_entry(table, i, j),
        best_before(table, text, i, j, place),
    ensures
        best_before(table, text, i, j + 1, next_place(table, text, place, i, j)),
{
    let next = next_place(table, text, place, i, j);
    if next == place {
        match place {
            None => {
                assert(match_len_at(table, text, i, j) == 0);
            },
            Some((bi, bj)) => {
                assert(match_len_at(table, text, i, j) <= match_len_at(table, text, bi, bj));
            },
        }
    } else {
        assert(next == Some((i, j)));
        assert forall|i2: int, j2: int|
            is_entry(table, i2, j2) && earlier(i2, j2, i, j) implies #[trigger] match_len_at(
            table,
            text,
            i2,
            j2,
        ) < match_len_at(table, text, i, j) by {
            match place {
                None => {},
                Some((bi, bj)) => {
                    assert(match_len_at(table, text, i2, j2) <= match_len_at(table, text, bi, bj));
                },
            }
        }
    }
}

/// Gives the place of the match for `text` among the names that are
/// compared before name `limit_j` of command `limit_i`.
proof fn lemma_best_before_exists(
    table: Seq<Seq<Seq<char>>>,
    text: Seq<char>,
    limit_i: int,
    limit_j: int,
) -> (place: Option<(int, int)>)
    requires
        0 <= limit_i <= table.len(),
        0 <= limit_j,
        limit_i < table.len() ==> limit_j <= table[limit_i].len(),
        limit_i == table.len() ==> limit_j == 0,
    ensures
        best_before(table, text, limit_i, limit_j, place),
    decreases limit_i, limit_j,
{
    if limit_j > 0 {
        let before = lemma_best_before_exists(table, text, limit_i, limit_j - 1);
        lemma_one_more(table, text, limit_i, limit_j - 1, before);
        next_place(table, text, before, limit_i, limit_j - 1)
    } else if limit_i > 0 {
        lemma_best_before_exists(table, text, limit_i - 1, table[limit_i - 1].len() as int)
    } else {
        None
    }
}

/// A text that shares its first word with some name has a match; the lemma
/// gives its place.
pub proof fn lemma_match_exists(table: Seq<Seq<Seq<char>>>, text: Seq<char>, i: int, j: int) -> (place:
    (int, int))
    requires
        is_entry(table, i, j),
        match_len_at(table, text, i, j) >= 1,
    ensures
        wins(table, text, place.0, place.1),
        spec_resolve(table, text) == Some(
            MatchView {
                match_len: match_len_at(table, text, place.0, place.1),
                command_index: place.0,
                alias: table[place.0][place.1],
            },
        ),
{
    let found = lemma_best_before_exists(table, text, table.len() as int, 0);
    if found is None {
        assert(match_len_at(table, text, i, j) == 0);
    }
    let (bi, bj) = found->0;
    assert(wins(table, text, bi, bj));
    lemma_resolve_gives_match(table, text, bi, bj);
    (bi, bj)
}

/// What is kept after one more comparison: `next` if it has a match and
/// `best` has none or a strictly shorter one, else `best`.
pub open spec fn spec_keep_better(best: Option<MatchCandidate>, next: MatchCandidate) -> Option<
    MatchCandidate,
> {
    if next.match_len >= 1 && (best matches Some(b) ==> next.match_len > b.match_len) {
        Some(next)
    } else {
        best
    }
}

/// Keeps the better of the best candidate so far and the next one. The next
/// one replaces the best only with a strictly longer match, so that of two
/// equal ones the first stays.
pub fn keep_better(best: Option<MatchCandidate>, next: MatchCandidate) -> (r: Option<MatchCandidate>)
    ensures
        r == spec_keep_better(best, next),
{
    if next.match_len == 0 {
        return best;
    }
    match best {
        None => Some(next),
        Some(b) => if next.match_len > b.match_len {
            Some(next)
        } else {
            Some(b)
        },
    }
}

/// Whether `best` holds what stands at `place` of `table`.
spec fn holds(
    table: Seq<Seq<Seq<char>>>,
    text: Seq<char>,
    best: Option<MatchCandidate>,
    place: Option<(int, int)>,
) -> bool {
    match place {
        None => best is None,
        Some((i, j)) => {
            &&& best matches Some(m)
            &&& m.command_index == i
            &&& m.alias@ == table[i][j]
            &&& m.match_len == match_len_at(table, text, i, j)
        },
    }
}

impl<H> Registry<H> {
    /// Finds the command that `candidate` invokes: of all names and aliases,
    /// the one that shares the most leading words with `candidate`, and of
    /// several such the one that is compared first. Commands are compared in
    /// registration order, a command's name before its aliases.
    pub fn resolve(&self, candidate: &str) -> (r: Option<MatchCandidate>)
        ensures
            match r {
                None => no_match(self.names(), candidate@),
                Some(m) => exists|j: int|
                    {
                        &&& wins(self.names(), candidate@, m.command_index as int, j)
                        &&& m.alias@ == self.names()[m.command_index as int][j]
                        &&& m.match_len == #[trigger] match_len_at(
                            self.names(),
                            candidate@,
                            m.command_index as int,
                            j,
                        )
                    },
            },
            match r {
                None => spec_resolve(self.names(), candidate@) is None,
                Some(m) => spec_resolve(self.names(), candidate@) == Some(m@),
            },
    {
        let words = split_words(candidate);
        let commands = self.as_slice();
        let ghost table = self.names();
        let ghost text = candidate@;
        let n = commands.len();
        let mut best: Option<MatchCandidate> = None;
        let ghost mut place: Option<(int, int)> = None;
        let mut i: usize = 0;
        while i < n
            invariant
                i <= n,
                n == commands@.len(),
                commands@ == self.commands(),
                table == self.names(),
                text == candidate@,
                texts(words@) == spec_split_words(text),
                best_before(table, text, i as int, 0, place),
                holds(table, text, best, place),
            decreases n - i,
        {
            let command = &commands[i];
            assert(table[i as int] == command.names());
            let by_name = MatchCandidate {
                match_len: match_len(&words, command.name.as_str()),
                command_index: i,
                alias: command.name.clone(),
            };
            proof {
                lemma_one_more(table, text, i as int, 0, place);
                place = next_place(table, text, place, i as int, 0);
            }
            best = keep_better(best, by_name);
            let mut k: usize = 0;
            while k < command.aliases.len()
                invariant
                    i < n,
                    n == table.len(),
                    k <= command.aliases.len(),
                    table[i as int] == command.names(),
                    texts(words@) == spec_split_words(text),
                    best_before(table, text, i as int, k + 1, place),
                    holds(table, text, best, place),
                decreases command.aliases.len() - k,
            {
                let by_alias = MatchCandidate {
                    match_len: match_len(&words, command.aliases[k].as_str()),
                    command_index: i,
                    alias: command.aliases[k].clone(),
                };
                proof {
                    assert(table[i as int][k + 1] == command.aliases@[k as int]@);
                    lemma_one_more(table, text, i as int, k + 1, place);
                    place = next_place(table, text, place, i as int, k + 1);
                }
                best = keep_better(best, by_alias);
                k += 1;
            }
            i += 1;
        }
        proof {
            match place {
                None => {
                    lemma_resolve_gives_none(table, text);
                },
                Some((bi, bj)) => {
                    assert(wins(table, text, bi, bj));
                    lemma_resolve_gives_match(table, text, bi, bj);
                },
            }
        }
        best
    }
}

/// The position behind the first `n` words of `s` that start at or after
/// `from`; the length of `s` where it has fewer.
pub open spec fn after_words(s: Seq<char>, from: int, n: nat) -> int
    decreases n,
{
    if n == 0 {
        from
    } else {
        after_words(s, run_end(s, run_end(s, from, true), false), (n - 1) as nat)
    }
}

/// `text` without its first `n` words, and without white space at either
/// end.
pub open spec fn spec_remainder(text: Seq<char>, n: nat) -> Seq<char> {
    spec_trim(text.skip(after_words(text, 0, n)))
}

/// The text that is left of `candidate` for the arguments once `alias` has
/// matched: `candidate` without as many leading words as `alias` has, and
/// without white space at either end.
pub fn remainder<'a>(candidate: &'a str, alias: &str) -> (r: &'a str)
    ensures
        r@ == spec_remainder(candidate@, spec_split_words(alias@).len()),
{
    let chars = chars_of(candidate);
    let count = split_words(alias).len();
    let ghost n = spec_split_words(alias@).len();
    let mut at: usize = 0;
    let mut done: usize = 0;
    while done < count
        invariant
            done <= count == n,
            at <= chars.len(),
            chars@ == candidate@,
            after_words(chars@, 0, n) == after_words(chars@, at as int, (n - done) as nat),
        decreases count - done,
    {
        let start = find_run_end(&chars, at, true);
        at = find_run_end(&chars, start, false);
        done += 1;
    }
    trim(candidate.substring_char(at, chars.len()))
}

/// The words of `words` behind the first `n`; none where there are fewer.
pub open spec fn words_behind(words: Seq<Seq<char>>, n: nat) -> Seq<Seq<char>> {
    if n <= words.len() {
        words.skip(n as int)
    } else {
        Seq::empty()
    }
}

/// The words that start at or after `after_words` are the words behind the
/// first `n`.
pub proof fn lemma_after_words(s: Seq<char>, from: int, n: nat)
    requires
        0 <= from <= s.len(),
    ensures
        from <= after_words(s, from, n) <= s.len(),
        words_from(s, after_words(s, from, n)) == words_behind(words_from(s, from), n),
    decreases n,
{
    let words = words_from(s, from);
    if n == 0 {
        assert(words.skip(0) == words);
    } else {
        let start = run_end(s, from, true);
        let end = run_end(s, start, false);
        lemma_words_step(s, from);
        lemma_after_words(s, end, (n - 1) as nat);
        let rest = words_from(s, end);
        if start < s.len() {
            assert(words.skip(1) == rest);
            if n <= words.len() {
                assert(words.skip(n as int) == rest.skip(n - 1));
            }
        } else {
            lemma_words_step(s, end);
        }
    }
}

/// The text that is left has the words of the candidate behind the first
/// `n`, in their order; it neither starts nor ends with white space; and it
/// is empty only if the candidate has no more than `n` words.
pub proof fn law_remainder_words(text: Seq<char>, n: nat)
    ensures
        spec_split_words(spec_remainder(text, n)) == words_behind(spec_split_words(text), n),
        spec_remainder(text, n).len() > 0 ==> !spec_is_whitespace(spec_remainder(text, n).first())
            && !spec_is_whitespace(spec_remainder(text, n).last()),
        spec_remainder(text, n).len() == 0 <==> spec_split_words(text).len() <= n,
{
    let at = after_words(text, 0, n);
    lemma_after_words(text, 0, n);
    lemma_words_skip(text, at, 0);
    lemma_trim_keeps_words(text.skip(at));
    lemma_trim_is_trimmed(text.skip(at));
}

/// A sequence of words agrees with itself on all its words, and with no
/// sequence on more than its own.
pub proof fn lemma_agreeing_words_bounds(words: Seq<Seq<char>>, name: Seq<Seq<char>>)
    ensures
        agreeing_words(words, name) <= words.len(),
        agreeing_words(words, name) <= name.len(),
        agreeing_words(words, words) == words.len(),
        agreeing_words(words, name) == words.len() <==> words.is_prefix_of(name),
{
    lemma_agree_from(words, name, 0);
    lemma_agree_from(words, words, 0);
    let n = agreeing_words(words, name) as int;
    if n == words.len() {
        assert(words =~= name.subrange(0, n));
    }
    if words.is_prefix_of(name) && n < words.len() {
        assert(name.subrange(0, words.len() as int)[n] == name[n]);
    }
}

/// The first name of command `i`, at or before `j`, that shares `full`
/// words with `text`, where name `j` does.
proof fn lemma_first_in_command(
    table: Seq<Seq<Seq<char>>>,
    text: Seq<char>,
    i: int,
    j: int,
    full: nat,
) -> (first: int)
    requires
        is_entry(table, i, j),
        match_len_at(table, text, i, j) == full,
    ensures
        0 <= first <= j,
        match_len_at(table, text, i, first) == full,
        forall|k: int| 0 <= k < first ==> #[trigger] match_len_at(table, text, i, k) != full,
    decreases j,
{
    if exists|k: int| 0 <= k < j && #[trigger] match_len_at(table, text, i, k) == full {
        let k = choose|k: int| 0 <= k < j && #[trigger] match_len_at(table, text, i, k) == full;
        lemma_first_in_command(table, text, i, k, full)
    } else {
        j
    }
}

/// A text that is exactly one of the names of command `i` invokes command
/// `i` and leaves nothing for the arguments, provided that the name has a
/// word and that no command registered before `i` has a name that begins
/// with the words of the text.
pub proof fn law_exact_name_resolves_to_owner(table: Seq<Seq<Seq<char>>>, i: int, j: int)
    requires
        is_entry(table, i, j),
        spec_split_words(table[i][j]).len() >= 1,
        forall|i2: int, j2: int|
            is_entry(table, i2, j2) && i2 < i ==> !spec_split_words(table[i][j]).is_prefix_of(
                #[trigger] spec_split_words(table[i2][j2]),
            ),
    ensures
        spec_resolve(table, table[i][j]) matches Some(found) && found.command_index == i
            && found.match_len == spec_split_words(table[i][j]).len() && spec_remainder(
            table[i][j],
            spec_split_words(found.alias).len(),
        ) == Seq::<char>::empty(),
{
    let text = table[i][j];
    let words = spec_split_words(text);
    let full = words.len();
    lemma_agreeing_words_bounds(words, words);
    let first = lemma_first_in_command(table, text, i, j, full);
    assert forall|i2: int, j2: int| is_entry(table, i2, j2) implies #[trigger] match_len_at(
        table,
        text,
        i2,
        j2,
    ) <= full && (earlier(i2, j2, i, first) ==> match_len_at(table, text, i2, j2) < full) by {
        lemma_agreeing_words_bounds(words, spec_split_words(table[i2][j2]));
    }
    assert(wins(table, text, i, first));
    lemma_resolve_gives_match(table, text, i, first);
    lemma_agreeing_words_bounds(words, spec_split_words(table[i][first]));
    law_remainder_words(text, spec_split_words(table[i][first]).len());
}

/// Of two names that share equally many words with a text, and at least
/// the first, the one that is compared later is not the match. The text has
/// a match: one that shares no fewer words than the two, and if it shares
/// no more, it belongs to a command that was registered no later than the
/// command of the earlier of the two.
pub proof fn law_equal_matches_keep_first(
    table: Seq<Seq<Seq<char>>>,
    text: Seq<char>,
    i: int,
    j: int,
    i2: int,
    j2: int,
)
    requires
        is_entry(table, i, j),
        is_entry(table, i2, j2),
        earlier(i, j, i2, j2),
        match_len_at(table, text, i, j) == match_len_at(table, text, i2, j2),
        match_len_at(table, text, i, j) >= 1,
    ensures
        !wins(table, text, i2, j2),
        spec_resolve(table, text) matches Some(found) && found.match_len >= match_len_at(
            table,
            text,
            i,
            j,
        ) && (found.match_len == match_len_at(table, text, i, j) ==> found.command_index <= i),
{
    let place = lemma_match_exists(table, text, i, j);
    assert(match_len_at(table, text, i, j) <= match_len_at(table, text, place.0, place.1));
    if earlier(i, j, place.0, place.1) {
        assert(match_len_at(table, text, i, j) < match_len_at(table, text, place.0, place.1));
    }
}

} // verus!
