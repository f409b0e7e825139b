//! Text as a sequence of characters: white space, words, prefixes, numbers.

use vstd::prelude::*;

verus! {

/// Whether `c` is white space: a code point with the Unicode property
/// `White_Space`.
pub open spec fn spec_is_whitespace(c: char) -> bool {
    let u = c as u32;
    ||| 0x09 <= u <= 0x0d
    ||| u == 0x20
    ||| u == 0x85
    ||| u == 0xa0
    ||| u == 0x1680
    ||| 0x2000 <= u <= 0x200a
    ||| u == 0x2028
    ||| u == 0x2029
    ||| u == 0x202f
    ||| u == 0x205f
    ||| u == 0x3000
}

/// Tells whether `c` is white space.
#[verifier::when_used_as_spec(spec_is_whitespace)]
pub fn is_whitespace(c: char) -> (b: bool)
    ensures
        b == spec_is_whitespace(c),
{
    let u: u32 = c as u32;
    (0x09 <= u && u <= 0x0d) || u == 0x20 || u == 0x85 || u == 0xa0 || u == 0x1680 || (0x2000 <= u
        && u <= 0x200a) || u == 0x2028 || u == 0x2029 || u == 0x202f || u == 0x205f || u == 0x3000
}

/// The characters of `s`, one by one.
pub fn chars_of(s: &str) -> (v: Vec<char>)
    ensures
        v@ == s@,
{
    let mut v: Vec<char> = Vec::new();
    for c in it: s.chars()
        invariant
            v@ == it.seq().take(it.index()),
    {
        v.push(c);
    }
    v
}

/// Where the run that starts at `from` ends: the run of white space if
/// `white`, of other characters if not. It is the first position at or after
/// `from` whose character is of the other kind, or the length of `s`.
pub open spec fn run_end(s: Seq<char>, from: int, white: bool) -> int
    decreases s.len() - from,
{
    if 0 <= from < s.len() && spec_is_whitespace(s[from]) == white {
        run_end(s, from + 1, white)
    } else {
        from
    }
}

/// `run_end` stays within `s`, passes only characters of the kind asked for,
/// and stops before one of the other kind.
pub proof fn lemma_run_end(s: Seq<char>, from: int, white: bool)
    requires
        0 <= from <= s.len(),
    ensures
        from <= run_end(s, from, white) <= s.len(),
        forall|k: int| from <= k < run_end(s, from, white) ==> spec_is_whitespace(#[trigger] s[k]) == white,
        run_end(s, from, white) < s.len() ==> spec_is_whitespace(s[run_end(s, from, white)]) != white,
    decreases s.len() - from,
{
    if from < s.len() && spec_is_whitespace(s[from]) == white {
        lemma_run_end(s, from + 1, white);
    }
}

/// A position `end` that only characters of the kind asked for separate from
/// `from`, and at which the run cannot go on, is where the run ends.
pub proof fn lemma_run_end_is(s: Seq<char>, from: int, end: int, white: bool)
    requires
        0 <= from <= end <= s.len(),
        forall|k: int| from <= k < end ==> spec_is_whitespace(#[trigger] s[k]) == white,
        end < s.len() ==> spec_is_whitespace(s[end]) != white,
    ensures
        run_end(s, from, white) == end,
    decreases end - from,
{
    if from < end {
        lemma_run_end_is(s, from + 1, end, white);
    }
}

/// Finds where the run that starts at `from` ends.
pub fn find_run_end(chars: &Vec<char>, from: usize, white: bool) -> (end: usize)
    requires
        from <= chars.len(),
    ensures
        end == run_end(chars@, from as int, white),
        from <= end <= chars.len(),
{
    let mut i: usize = from;
    while i < chars.len() && is_whitespace(chars[i]) == white
        invariant
            from <= i <= chars.len(),
            run_end(chars@, from as int, white) == run_end(chars@, i as int, white),
        decreases chars.len() - i,
    {
        i += 1;
    }
    i
}

/// The views of the strings of `v`, in order.
pub open spec fn texts(v: Seq<String>) -> Seq<Seq<char>> {
    v.map_values(|t: String| t@)
}

/// The words of `s` that start at or after `from`: the maximal runs of
/// characters that are not white space, in order.
pub open spec fn words_from(s: Seq<char>, from: int) -> Seq<Seq<char>>
    decreases s.len() - from,
{
    if 0 <= from < s.len() {
        if spec_is_whitespace(s[from]) {
            words_from(s, from + 1)
        } else {
            let end = run_end(s, from + 1, false);
            proof {
                lemma_run_end(s, from + 1, false);
            }
            seq![s.subrange(from, end)] + words_from(s, end)
        }
    } else {
        Seq::empty()
    }
}

/// The words of `s`, delimited by white space.
pub open spec fn spec_split_words(s: Seq<char>) -> Seq<Seq<char>> {
    words_from(s, 0)
}

/// Splits `s` into its words, delimited by white space.
pub fn split_words(s: &str) -> (words: Vec<String>)
    ensures
        texts(words@) == spec_split_words(s@),
{
    let chars = chars_of(s);
    let mut words: Vec<String> = Vec::new();
    let mut i: usize = 0;
    while i < chars.len()
        invariant
            chars@ == s@,
            i <= chars.len(),
            spec_split_words(s@) == texts(words@) + words_from(s@, i as int),
        decreases chars.len() - i,
    {
        if is_whitespace(chars[i]) {
            i += 1;
        } else {
            let end = find_run_end(&chars, i + 1, false);
            let word = s.substring_char(i, end).to_owned();
            proof {
                let before = texts(words@);
                let after = texts(words@.push(word));
                assert(after == before.push(word@));
                assert(before + (seq![word@] + words_from(s@, end as int)) == before.push(word@)
                    + words_from(s@, end as int));
            }
            words.push(word);
            i = end;
        }
    }
    proof {
        assert(texts(words@) + Seq::<Seq<char>>::empty() == texts(words@));
    }
    words
}

/// Where the white space that ends at `to` starts: the first position such
/// that only white space stands between it and `to`.
pub open spec fn trailing_start(s: Seq<char>, to: int) -> int
    decreases to,
{
    if 0 < to <= s.len() && spec_is_whitespace(s[to - 1]) {
        trailing_start(s, to - 1)
    } else {
        to
    }
}

/// `s` without its leading white space.
pub open spec fn spec_trim_start(s: Seq<char>) -> Seq<char> {
    s.skip(run_end(s, 0, true))
}

/// `s` without its trailing white space.
pub open spec fn spec_trim_end(s: Seq<char>) -> Seq<char> {
    s.take(trailing_start(s, s.len() as int))
}

/// `s` without its leading and trailing white space.
pub open spec fn spec_trim(s: Seq<char>) -> Seq<char> {
    spec_trim_end(spec_trim_start(s))
}

/// `trailing_start` stays within `s` and passes only white space.
pub proof fn lemma_trailing_start(s: Seq<char>, to: int)
    requires
        0 <= to <= s.len(),
    ensures
        0 <= trailing_start(s, to) <= to,
        forall|k: int| trailing_start(s, to) <= k < to ==> spec_is_whitespace(#[trigger] s[k]),
        trailing_start(s, to) > 0 ==> !spec_is_whitespace(s[trailing_start(s, to) - 1]),
    decreases to,
{
    if 0 < to && spec_is_whitespace(s[to - 1]) {
        lemma_trailing_start(s, to - 1);
    }
}

/// Finds where the white space that ends at `to` starts, looking no further
/// back than `floor`.
fn find_trailing_start(chars: &Vec<char>, floor: usize, to: usize) -> (start: usize)
    requires
        floor <= to <= chars.len(),
    ensures
        floor <= start <= to,
        start as int - floor == trailing_start(chars@.skip(floor as int), to - floor),
{
    let ghost tail = chars@.skip(floor as int);
    let mut i: usize = to;
    while i > floor && is_whitespace(chars[i - 1])
        invariant
            floor <= i <= to <= chars.len(),
            tail == chars@.skip(floor as int),
            trailing_start(tail, to - floor) == trailing_start(tail, i - floor),
        decreases i,
    {
        assert(tail[i - floor - 1] == chars@[i - 1]);
        i -= 1;
    }
    proof {
        if i > floor {
            assert(tail[i - floor - 1] == chars@[i - 1]);
        }
    }
    i
}

/// Removes leading and trailing white space from `s`.
pub fn trim(s: &str) -> (r: &str)
    ensures
        r@ == spec_trim(s@),
{
    let chars = chars_of(s);
    let start = find_run_end(&chars, 0, true);
    let end = find_trailing_start(&chars, start, chars.len());
    proof {
        let t = spec_trim_start(s@);
        assert(t.take(end - start) == s@.subrange(start as int, end as int));
    }
    s.substring_char(start, end)
}

/// Removes `prefix` from the front of `body`, if `body` starts with it.
pub fn strip_prefix<'a>(body: &'a str, prefix: &str) -> (r: Option<&'a str>)
    ensures
        match r {
            Some(rest) => prefix@.is_prefix_of(body@) && rest@ == body@.skip(prefix@.len() as int),
            None => !prefix@.is_prefix_of(body@),
        },
{
    let text = chars_of(body);
    let head = chars_of(prefix);
    if head.len() > text.len() {
        return None;
    }
    let mut i: usize = 0;
    while i < head.len()
        invariant
            i <= head.len() <= text.len(),
            text@ == body@,
            head@ == prefix@,
            forall|k: int| 0 <= k < i ==> head@[k] == text@[k],
        decreases head.len() - i,
    {
        if head[i] != text[i] {
            proof {
                if prefix@.is_prefix_of(body@) {
                    assert(body@.subrange(0, prefix@.len() as int)[i as int] == body@[i as int]);
                }
            }
            return None;
        }
        i += 1;
    }
    proof {
        assert(prefix@ =~= body@.subrange(0, prefix@.len() as int));
        assert(body@.skip(prefix@.len() as int) == body@.subrange(
            head.len() as int,
            text.len() as int,
        ));
    }
    Some(body.substring_char(head.len(), text.len()))
}

/// The decimal digit that stands for `d`, which is below ten.
pub open spec fn digit_char(d: int) -> char {
    if d == 0 {
        '0'
    } else if d == 1 {
        '1'
    } else if d == 2 {
        '2'
    } else if d == 3 {
        '3'
    } else if d == 4 {
        '4'
    } else if d == 5 {
        '5'
    } else if d == 6 {
        '6'
    } else if d == 7 {
        '7'
    } else if d == 8 {
        '8'
    } else {
        '9'
    }
}

/// `n` written in decimal, without leading zeros.
pub open spec fn spec_decimal(n: nat) -> Seq<char>
    decreases n,
{
    if n < 10 {
        seq![digit_char(n as int)]
    } else {
        spec_decimal(n / 10).push(digit_char((n % 10) as int))
    }
}

/// The one-character text of the digit `d`.
fn digit_text(d: usize) -> (t: &'static str)
    requires
        d < 10,
    ensures
        t@ == seq![digit_char(d as int)],
{
    proof {
        reveal_strlit("0");
        reveal_strlit("1");
        reveal_strlit("2");
        reveal_strlit("3");
        reveal_strlit("4");
        reveal_strlit("5");
        reveal_strlit("6");
        reveal_strlit("7");
        reveal_strlit("8");
        reveal_strlit("9");
    }
    let t = if d == 0 {
        "0"
    } else if d == 1 {
        "1"
    } else if d == 2 {
        "2"
    } else if d == 3 {
        "3"
    } else if d == 4 {
        "4"
    } else if d == 5 {
        "5"
    } else if d == 6 {
        "6"
    } else if d == 7 {
        "7"
    } else if d == 8 {
        "8"
    } else {
        "9"
    };
    assert(t@ =~= seq![digit_char(d as int)]);
    t
}

/// Appends `n`, written in decimal, to `out`.
pub fn push_decimal(out: &mut String, n: usize)
    ensures
        final(out)@ == old(out)@ + spec_decimal(n as nat),
    decreases n,
{
    if n >= 10 {
        push_decimal(out, n / 10);
    }
    out.append(digit_text(n % 10));
    proof {
        let d = seq![digit_char((n % 10) as int)];
        if n >= 10 {
            assert(old(out)@ + spec_decimal((n / 10) as nat) + d == old(out)@ + spec_decimal(
                (n / 10) as nat,
            ).push(digit_char((n % 10) as int)));
        }
    }
}

/// Writes `n` in decimal.
pub fn decimal(n: usize) -> (s: String)
    ensures
        s@ == spec_decimal(n as nat),
{
    let mut s = String::new();
    push_decimal(&mut s, n);
    assert(Seq::<char>::empty() + spec_decimal(n as nat) == spec_decimal(n as nat));
    s
}

/// Tells whether `a` and `b` hold the same characters.
pub fn text_eq(a: &str, b: &str) -> (same: bool)
    ensures
        same == (a@ == b@),
{
    let x = chars_of(a);
    let y = chars_of(b);
    if x.len() != y.len() {
        return false;
    }
    let mut i: usize = 0;
    while i < x.len()
        invariant
            i <= x.len() == y.len(),
            x@ == a@,
            y@ == b@,
            forall|k: int| 0 <= k < i ==> x@[k] == y@[k],
        decreases x.len() - i,
    {
        if x[i] != y[i] {
            return false;
        }
        i += 1;
    }
    assert(x@ =~= y@);
    true
}

/// White space in front of a position adds no word.
pub proof fn lemma_words_skip_space(s: Seq<char>, from: int)
    requires
        0 <= from <= s.len(),
    ensures
        words_from(s, from) == words_from(s, run_end(s, from, true)),
    decreases s.len() - from,
{
    if from < s.len() && spec_is_whitespace(s[from]) {
        lemma_words_skip_space(s, from + 1);
    }
}

/// The words from `from` on are the word that starts behind the white space
/// at `from`, if there is one, and the words behind it.
pub proof fn lemma_words_step(s: Seq<char>, from: int)
    requires
        0 <= from <= s.len(),
    ensures
        ({
            let start = run_end(s, from, true);
            let end = run_end(s, start, false);
            &&& from <= start <= end <= s.len()
            &&& start < s.len() ==> start < end && words_from(s, from) == seq![
                s.subrange(start, end),
            ] + words_from(s, end)
            &&& start == s.len() ==> words_from(s, from) == Seq::<Seq<char>>::empty()
        }),
{
    let start = run_end(s, from, true);
    lemma_run_end(s, from, true);
    lemma_run_end(s, start, false);
    lemma_words_skip_space(s, from);
    if start < s.len() {
        assert(run_end(s, start, false) == run_end(s, start + 1, false));
    }
}

/// Where `s` holds only white space from `from` on, no word starts there.
pub proof fn lemma_words_of_space(s: Seq<char>, from: int)
    requires
        0 <= from <= s.len(),
        forall|k: int| from <= k < s.len() ==> spec_is_whitespace(#[trigger] s[k]),
    ensures
        words_from(s, from) == Seq::<Seq<char>>::empty(),
{
    lemma_run_end_is(s, from, s.len() as int, true);
    lemma_words_skip_space(s, from);
}

/// A run in `s` without its first `k` characters ends where it ends in `s`.
pub proof fn lemma_run_end_skip(s: Seq<char>, k: int, from: int, white: bool)
    requires
        0 <= k <= s.len(),
        0 <= from <= s.len() - k,
    ensures
        run_end(s.skip(k), from, white) == run_end(s, k + from, white) - k,
{
    let end = run_end(s, k + from, white);
    lemma_run_end(s, k + from, white);
    let t = s.skip(k);
    assert forall|m: int| from <= m < end - k implies spec_is_whitespace(#[trigger] t[m])
        == white by {
        assert(t[m] == s[k + m]);
    }
    if end - k < t.len() {
        assert(t[end - k] == s[end]);
    }
    lemma_run_end_is(t, from, end - k, white);
}

/// The words of `s` without its first `k` characters are the words of `s`
/// that start at or after `k`.
pub proof fn lemma_words_skip(s: Seq<char>, k: int, from: int)
    requires
        0 <= k <= s.len(),
        0 <= from <= s.len() - k,
    ensures
        words_from(s.skip(k), from) == words_from(s, k + from),
    decreases s.len() - k - from,
{
    let t = s.skip(k);
    if from < t.len() {
        assert(t[from] == s[k + from]);
        if spec_is_whitespace(t[from]) {
            lemma_words_skip(s, k, from + 1);
        } else {
            let end = run_end(s, k + from + 1, false);
            lemma_run_end(s, k + from + 1, false);
            lemma_run_end_skip(s, k, from + 1, false);
            assert(t.subrange(from, end - k) == s.subrange(k + from, end));
            lemma_words_skip(s, k, end - k);
        }
    }
}

/// White space at the end of `s` adds no word: the words of the first `to`
/// characters are the words of `s`, where only white space follows them.
pub proof fn lemma_words_take(s: Seq<char>, to: int, from: int)
    requires
        0 <= from <= to <= s.len(),
        forall|k: int| to <= k < s.len() ==> spec_is_whitespace(#[trigger] s[k]),
    ensures
        words_from(s.take(to), from) == words_from(s, from),
    decreases s.len() - from,
{
    let t = s.take(to);
    if from < to {
        assert(t[from] == s[from]);
        if spec_is_whitespace(s[from]) {
            lemma_words_take(s, to, from + 1);
        } else {
            let end = run_end(s, from + 1, false);
            lemma_run_end(s, from + 1, false);
            if end > to {
                assert(spec_is_whitespace(s[to]));
            }
            assert forall|m: int| from + 1 <= m < end implies !spec_is_whitespace(
                #[trigger] t[m],
            ) by {
                assert(t[m] == s[m]);
            }
            if end < to {
                assert(t[end] == s[end]);
            }
            lemma_run_end_is(t, from + 1, end, false);
            assert(t.subrange(from, end) == s.subrange(from, end));
            lemma_words_take(s, to, end);
        }
    } else {
        lemma_words_of_space(s, from);
    }
}

/// Trimming a text keeps its words.
pub proof fn lemma_trim_keeps_words(s: Seq<char>)
    ensures
        spec_split_words(spec_trim_start(s)) == spec_split_words(s),
        spec_split_words(spec_trim_end(s)) == spec_split_words(s),
        spec_split_words(spec_trim(s)) == spec_split_words(s),
{
    let start = run_end(s, 0, true);
    lemma_run_end(s, 0, true);
    lemma_words_skip(s, start, 0);
    lemma_words_skip_space(s, 0);
    lemma_trailing_start(s, s.len() as int);
    lemma_words_take(s, trailing_start(s, s.len() as int), 0);
    let t = spec_trim_start(s);
    lemma_trailing_start(t, t.len() as int);
    lemma_words_take(t, trailing_start(t, t.len() as int), 0);
}

/// A trimmed text neither starts nor ends with white space, and is empty
/// only if the text has no word.
pub proof fn lemma_trim_is_trimmed(s: Seq<char>)
    ensures
        spec_trim(s).len() > 0 ==> !spec_is_whitespace(spec_trim(s).first())
            && !spec_is_whitespace(spec_trim(s).last()),
        spec_trim(s).len() == 0 <==> spec_split_words(s).len() == 0,
{
    let start = run_end(s, 0, true);
    lemma_run_end(s, 0, true);
    let t = spec_trim_start(s);
    let to = trailing_start(t, t.len() as int);
    lemma_trailing_start(t, t.len() as int);
    let u = spec_trim(s);
    lemma_trim_keeps_words(s);
    if t.len() > 0 {
        assert(t[0] == s[start]);
        assert(to > 0);
        assert(u[0] == t[0]);
        assert(u[to - 1] == t[to - 1]);
        lemma_run_end(u, 1, false);
    }
}

} // verus!
