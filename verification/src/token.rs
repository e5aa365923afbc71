//! Splitting a line into whitespace-separated tokens.

use vstd::prelude::*;

verus! {

/// Whether `c` separates tokens: the characters with Unicode's `White_Space` property.
pub open spec fn is_whitespace(c: char) -> bool {
    let n = c as u32;
    ||| 0x09 <= n <= 0x0d
    ||| n == 0x20
    ||| n == 0x85
    ||| n == 0xa0
    ||| n == 0x1680
    ||| 0x2000 <= n <= 0x200a
    ||| n == 0x2028
    ||| n == 0x2029
    ||| n == 0x202f
    ||| n == 0x205f
    ||| n == 0x3000
}

/// The number of characters before the first whitespace of `s`, or all of them.
pub open spec fn word_len(s: Seq<char>) -> nat
    decreases s.len(),
{
    if s.len() == 0 || is_whitespace(s[0]) {
        0
    } else {
        1 + word_len(s.drop_first())
    }
}

/// The tokens of a line: its maximal runs of characters that are not whitespace,
/// from left to right.
pub open spec fn tokens_of(line: Seq<char>) -> Seq<Seq<char>>
    decreases line.len(),
    via tokens_of_decreases
{
    if line.len() == 0 {
        seq![]
    } else if is_whitespace(line[0]) {
        tokens_of(line.drop_first())
    } else {
        let n = word_len(line) as int;
        seq![line.take(n)] + tokens_of(line.skip(n))
    }
}

#[via_fn]
proof fn tokens_of_decreases(line: Seq<char>) {
    lemma_word_len_bounds(line);
}

/// A word is no longer than the text it starts, and not empty where the text
/// starts with a character that is not whitespace.
pub proof fn lemma_word_len_bounds(s: Seq<char>)
    ensures
        word_len(s) <= s.len(),
        s.len() > 0 && !is_whitespace(s[0]) ==> word_len(s) >= 1,
    decreases s.len(),
{
    if s.len() > 0 && !is_whitespace(s[0]) {
        lemma_word_len_bounds(s.drop_first());
    }
}

/// The texts of a vector of strings.
pub open spec fn texts(v: Seq<String>) -> Seq<Seq<char>> {
    v.map_values(|s: String| s@)
}

pub fn is_whitespace_char(c: char) -> (r: bool)
    ensures
        r == is_whitespace(c),
{
    let n: u32 = c as u32;
    (0x09 <= n && n <= 0x0d) || n == 0x20 || n == 0x85 || n == 0xa0 || n == 0x1680 || (0x2000 <= n
        && n <= 0x200a) || n == 0x2028 || n == 0x2029 || n == 0x202f || n == 0x205f || n == 0x3000
}

/// The characters of `s`, in order.
pub fn chars_of(s: &str) -> (v: Vec<char>)
    ensures
        v@ == s@,
{
    let n: usize = s.unicode_len();
    let mut v: Vec<char> = Vec::new();
    let mut i: usize = 0;
    while i < n
        invariant
            n == s@.len(),
            i <= n,
            v@ == s@.take(i as int),
        decreases n - i,
    {
        v.push(s.get_char(i));
        i += 1;
    }
    v
}

/// Whether `word` can be a token: it is not empty and holds no whitespace.
pub open spec fn is_token(word: Seq<char>) -> bool {
    &&& word.len() > 0
    &&& forall|i: int| 0 <= i < word.len() ==> !is_whitespace(#[trigger] word[i])
}

/// Whether every item of `words` can be a token.
pub open spec fn all_tokens(words: Seq<Seq<char>>) -> bool {
    forall|i: int| 0 <= i < words.len() ==> is_token(#[trigger] words[i])
}

/// The line that holds `words` with one space between each two.
pub open spec fn joined(words: Seq<Seq<char>>) -> Seq<char>
    decreases words.len(),
{
    if words.len() == 0 {
        Seq::<char>::empty()
    } else if words.len() == 1 {
        words[0]
    } else {
        words[0] + seq![' '] + joined(words.drop_first())
    }
}

/// A token in front of the end or of whitespace is a word of its own.
proof fn lemma_word_len_of_token(word: Seq<char>, rest: Seq<char>)
    requires
        forall|i: int| 0 <= i < word.len() ==> !is_whitespace(#[trigger] word[i]),
        rest.len() == 0 || is_whitespace(rest[0]),
    ensures
        word_len(word + rest) == word.len(),
    decreases word.len(),
{
    if word.len() > 0 {
        let shorter = word.drop_first();
        assert forall|i: int| 0 <= i < shorter.len() implies !is_whitespace(
            #[trigger] shorter[i],
        ) by {
            assert(shorter[i] == word[i + 1]);
        }
        lemma_word_len_of_token(shorter, rest);
        assert((word + rest).drop_first() =~= shorter + rest);
        assert((word + rest)[0] == word[0]);
    } else {
        assert(word + rest =~= rest);
    }
}

/// The tokens of a line that was joined of tokens are those tokens.
pub proof fn lemma_tokens_of_joined(words: Seq<Seq<char>>)
    requires
        all_tokens(words),
    ensures
        tokens_of(joined(words)) == words,
    decreases words.len(),
{
    if words.len() == 0 {
        assert(words =~= Seq::<Seq<char>>::empty());
    } else {
        let first = words[0];
        assert(is_token(first));
        let others = words.drop_first();
        let rest = if words.len() == 1 {
            Seq::<char>::empty()
        } else {
            seq![' '] + joined(others)
        };
        let line = joined(words);
        assert(line =~= first + rest);
        lemma_word_len_of_token(first, rest);
        assert(line.take(first.len() as int) =~= first);
        assert(line.skip(first.len() as int) =~= rest);
        assert(line[0] == first[0]);
        assert forall|i: int| 0 <= i < others.len() implies is_token(#[trigger] others[i]) by {
            assert(others[i] == words[i + 1]);
        }
        lemma_tokens_of_joined(others);
        if words.len() == 1 {
            assert(others =~= Seq::<Seq<char>>::empty());
            assert(tokens_of(rest) =~= others);
        } else {
            assert(rest.drop_first() =~= joined(others));
            assert(is_whitespace(rest[0]));
            assert(tokens_of(rest) == tokens_of(rest.drop_first()));
        }
        assert(!is_whitespace(line[0]));
        assert(tokens_of(line) == seq![line.take(first.len() as int)] + tokens_of(
            line.skip(first.len() as int),
        ));
        assert(seq![first] + others =~= words);
    }
}

/// Skipping a word and then its first follower is skipping one character more.
proof fn lemma_word_len_step(s: Seq<char>, i: int, j: int)
    requires
        0 <= i <= j < s.len(),
        word_len(s.skip(i)) == (j - i) + word_len(s.skip(j)),
        !is_whitespace(s[j]),
    ensures
        word_len(s.skip(i)) == (j + 1 - i) + word_len(s.skip(j + 1)),
{
    assert(s.skip(j).drop_first() =~= s.skip(j + 1));
}

/// Splits a line into its tokens.
pub fn split_tokens(line: &str) -> (tokens: Vec<String>)
    ensures
        texts(tokens@) == tokens_of(line@),
{
    let chars = chars_of(line);
    let n: usize = chars.len();
    let mut tokens: Vec<String> = Vec::new();
    let mut i: usize = 0;
    assert(line@.skip(0) =~= line@);
    assert(texts(tokens@) =~= Seq::<Seq<char>>::empty());
    while i < n
        invariant
            chars@ == line@,
            n == chars.len(),
            i <= n,
            tokens_of(line@) == texts(tokens@) + tokens_of(line@.skip(i as int)),
        decreases n - i,
    {
        let ghost rest = line@.skip(i as int);
        if is_whitespace_char(chars[i]) {
            assert(rest.drop_first() =~= line@.skip(i + 1));
            i += 1;
        } else {
            let mut j: usize = i + 1;
            proof {
                assert(line@.skip(i as int) =~= rest);
                assert(rest.drop_first() =~= line@.skip(i + 1));
            }
            while j < n && !is_whitespace_char(chars[j])
                invariant
                    chars@ == line@,
                    n == chars.len(),
                    i < j <= n,
                    word_len(line@.skip(i as int)) == (j - i) + word_len(line@.skip(j as int)),
                decreases n - j,
            {
                proof {
                    lemma_word_len_step(line@, i as int, j as int);
                }
                j += 1;
            }
            let token = line.substring_char(i, j).to_owned();
            proof {
                assert(word_len(rest) == j - i);
                assert(rest.take(j - i) =~= line@.subrange(i as int, j as int));
                assert(rest.skip(j - i) =~= line@.skip(j as int));
                assert(texts(tokens@.push(token)) =~= texts(tokens@) + seq![token@]);
            }
            tokens.push(token);
            i = j;
        }
    }
    assert(tokens_of(line@.skip(n as int)) =~= Seq::<Seq<char>>::empty());
    tokens
}

} // verus!
