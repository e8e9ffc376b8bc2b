//! Textual features of a query: its length in characters and its number of
//! whitespace-delimited words.
use vstd::prelude::*;
use vstd::string::*;

verus! {

/// Unicode `White_Space`, the characters that separate words.
pub open spec fn is_white(c: char) -> bool {
    let u = c as u32;
    (0x09 <= u && u <= 0x0D) || u == 0x20 || u == 0x85 || u == 0xA0 || u == 0x1680 || (0x2000
        <= u && u <= 0x200A) || u == 0x2028 || u == 0x2029 || u == 0x202F || u == 0x205F || u
        == 0x3000
}

/// Whether position `j` of `s` starts a word.
pub open spec fn starts_word(s: Seq<char>, j: int) -> bool {
    !is_white(s[j]) && (j == 0 || is_white(s[j - 1]))
}

/// Number of words that start among the first `k` characters of `s`.
pub open spec fn words_in(s: Seq<char>, k: int) -> nat
    decreases k,
{
    if k <= 0 {
        0
    } else {
        words_in(s, k - 1) + if starts_word(s, k - 1) {
            1nat
        } else {
            0nat
        }
    }
}

/// Number of whitespace-delimited words of `s`.
pub open spec fn word_count(s: Seq<char>) -> nat {
    words_in(s, s.len() as int)
}

/// Whether `c` is Unicode white space.
pub fn is_whitespace(c: char) -> (r: bool)
    ensures
        r == is_white(c),
{
    let u = c as u32;
    (0x09 <= u && u <= 0x0D) || u == 0x20 || u == 0x85 || u == 0xA0 || u == 0x1680 || (0x2000
        <= u && u <= 0x200A) || u == 0x2028 || u == 0x2029 || u == 0x202F || u == 0x205F || u
        == 0x3000
}

proof fn lemma_words_in_bound(s: Seq<char>, k: int)
    requires
        0 <= k,
    ensures
        words_in(s, k) <= k,
    decreases k,
{
    if k > 0 {
        lemma_words_in_bound(s, k - 1);
    }
}

/// Number of whitespace-delimited words of `s`.
pub fn count_words(s: &str) -> (r: usize)
    ensures
        r == word_count(s@),
{
    let n = s.unicode_len();
    let mut count: usize = 0;
    let mut prev_white = true;
    let mut i: usize = 0;
    while i < n
        invariant
            i <= n,
            n == s@.len(),
            count == words_in(s@, i as int),
            i > 0 ==> prev_white == is_white(s@[i - 1]),
            i == 0 ==> prev_white,
        decreases n - i,
    {
        proof {
            lemma_words_in_bound(s@, i as int);
        }
        let c = s.get_char(i);
        let white = is_whitespace(c);
        if !white && prev_white {
            count = count + 1;
        }
        prev_white = white;
        i = i + 1;
    }
    count
}

/// Number of characters of `s`.
pub fn count_chars(s: &str) -> (r: usize)
    ensures
        r == s@.len(),
{
    s.unicode_len()
}

} // verus!
