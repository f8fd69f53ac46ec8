//! Text as sequences of characters: words, joins and sub-strings.

use vstd::prelude::*;
use vstd::string::*;

verus! {

/// The characters of `s`, in order.
pub fn chars_of(s: &str) -> (chars: Vec<char>)
    ensures
        chars@ == s@,
{
    let mut chars: Vec<char> = Vec::new();
    for c in it: s.chars()
        invariant
            chars@ == it.seq().take(it.index() as int),
            it.seq() == s@,
    {
        chars.push(c);
    }
    chars
}

/// The views of a list of strings, in order.
pub open spec fn strings_view(strings: Seq<String>) -> Seq<Seq<char>> {
    strings.map_values(|s: String| s@)
}

/// ASCII whitespace: space, tab, line feed, form feed, carriage return.
pub open spec fn is_space(c: char) -> bool {
    c == ' ' || c == '\t' || c == '\n' || c == '\x0C' || c == '\r'
}

/// The first position at or after `i` that holds no whitespace, or the end.
pub open spec fn skip_spaces(s: Seq<char>, i: int) -> int
    decreases s.len() - i,
{
    if 0 <= i < s.len() && is_space(s[i]) {
        skip_spaces(s, i + 1)
    } else {
        i
    }
}

/// The first position at or after `i` that holds whitespace, or the end.
pub open spec fn skip_word(s: Seq<char>, i: int) -> int
    decreases s.len() - i,
{
    if 0 <= i < s.len() && !is_space(s[i]) {
        skip_word(s, i + 1)
    } else {
        i
    }
}

/// The words of `s` that start at or after `i`: the maximal runs of
/// characters that are not whitespace, in order.
pub open spec fn words_from(s: Seq<char>, i: int) -> Seq<Seq<char>>
    decreases s.len() - i,
{
    let start = skip_spaces(s, i);
    let end = skip_word(s, start);
    if 0 <= i && start < s.len() && i < end <= s.len() {
        seq![s.subrange(start, end)] + words_from(s, end)
    } else {
        Seq::empty()
    }
}

/// The whitespace-separated words of `s`.
pub open spec fn words(s: Seq<char>) -> Seq<Seq<char>> {
    words_from(s, 0)
}

/// The words put together with one space between neighbours.
pub open spec fn joined(words: Seq<Seq<char>>) -> Seq<char>
    decreases words.len(),
{
    if words.len() == 0 {
        Seq::empty()
    } else if words.len() == 1 {
        words[0]
    } else {
        joined(words.drop_last()) + seq![' '] + words.last()
    }
}

/// Whether `pattern` occurs in `text` as a contiguous run.
pub open spec fn is_substring(text: Seq<char>, pattern: Seq<char>) -> bool {
    exists|i: int|
        0 <= i && i + pattern.len() <= text.len() && #[trigger] text.subrange(
            i,
            i + pattern.len(),
        ) == pattern
}

/// Whether `c` is ASCII whitespace.
pub fn is_ascii_space(c: char) -> (space: bool)
    ensures
        space == is_space(c),
{
    c == ' ' || c == '\t' || c == '\n' || c == '\x0C' || c == '\r'
}

/// Splits `text` at ASCII whitespace into its words; no word is empty.
pub fn split_words(text: &str) -> (out: Vec<String>)
    ensures
        strings_view(out@) == words(text@),
{
    let chars = chars_of(text);
    let n = chars.len();
    let mut out: Vec<String> = Vec::new();
    let mut i: usize = 0;
    assert(strings_view(out@) + words_from(chars@, 0) =~= words(text@));
    loop
        invariant
            chars@ == text@,
            n == chars@.len(),
            i <= n,
            strings_view(out@) + words_from(chars@, i as int) == words(text@),
        ensures
            strings_view(out@) == words(text@),
        decreases n - i,
    {
        let ghost from = i as int;
        while i < n && is_ascii_space(chars[i])
            invariant
                n == chars@.len(),
                from <= i <= n,
                skip_spaces(chars@, from) == skip_spaces(chars@, i as int),
            decreases n - i,
        {
            i = i + 1;
        }
        let start = i;
        while i < n && !is_ascii_space(chars[i])
            invariant
                n == chars@.len(),
                start <= i <= n,
                skip_word(chars@, start as int) == skip_word(chars@, i as int),
            decreases n - i,
        {
            i = i + 1;
        }
        if start == i {
            assert(words_from(chars@, from) =~= Seq::<Seq<char>>::empty());
            assert(strings_view(out@) + Seq::<Seq<char>>::empty() =~= strings_view(out@));
            break ;
        }
        let word = String::from_str(text.substring_char(start, i));
        proof {
            let before = strings_view(out@);
            assert(words_from(chars@, from) == seq![chars@.subrange(start as int, i as int)]
                + words_from(chars@, i as int));
            assert(strings_view(out@.push(word)) =~= before.push(word@));
            assert(before.push(word@) + words_from(chars@, i as int) =~= before + words_from(
                chars@,
                from,
            ));
        }
        out.push(word);
    }
    out
}

/// Puts `words` together with one space between neighbours.
pub fn join_words(words: &Vec<String>) -> (out: String)
    ensures
        out@ == joined(strings_view(words@)),
{
    let mut out = String::new();
    let mut i: usize = 0;
    while i < words.len()
        invariant
            i <= words.len(),
            out@ == joined(strings_view(words@).take(i as int)),
        decreases words.len() - i,
    {
        if i > 0 {
            proof {
                reveal_strlit(" ");
            }
            out.append(" ");
            assert(" "@ =~= seq![' ']);
        }
        out.append(words[i].as_str());
        proof {
            let views = strings_view(words@);
            let now = views.take(i + 1);
            assert(now.drop_last() =~= views.take(i as int));
            assert(now.last() == words[i as int]@);
            if i == 0 {
                assert(out@ =~= words[0]@);
            }
        }
        i = i + 1;
    }
    assert(strings_view(words@).take(words.len() as int) =~= strings_view(words@));
    out
}

/// Whether `pattern` occurs in `text` as a contiguous run of characters.
pub fn contains(text: &Vec<char>, pattern: &Vec<char>) -> (found: bool)
    ensures
        found == is_substring(text@, pattern@),
{
    let n = text.len();
    let m = pattern.len();
    if m > n {
        return false;
    }
    let mut i: usize = 0;
    while i <= n - m
        invariant
            n == text@.len(),
            m == pattern@.len(),
            m <= n,
            i <= n - m + 1,
            forall|k: int| 0 <= k < i ==> #[trigger] text@.subrange(k, k + m) != pattern@,
        decreases n - m + 1 - i,
    {
        let mut j: usize = 0;
        while j < m && text[i + j] == pattern[j]
            invariant
                n == text@.len(),
                m == pattern@.len(),
                i + m <= n,
                j <= m,
                forall|k: int| 0 <= k < j ==> text@[i + k] == pattern@[k],
            decreases m - j,
        {
            j = j + 1;
        }
        if j == m {
            assert(text@.subrange(i as int, i + m) =~= pattern@);
            return true;
        }
        assert(text@.subrange(i as int, i + m)[j as int] != pattern@[j as int]);
        i = i + 1;
    }
    false
}

} // verus!
