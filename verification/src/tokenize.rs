//! The escape-aware tokenizer: splitting a definition string into
//! KEY=VALUE tokens on unescaped delimiters outside bracket and brace
//! nesting.

use vstd::prelude::*;

use crate::text::chars_to_string;
use crate::text::split_plain_from;
use crate::text::str_to_chars;

verus! {

broadcast use {
    vstd::seq::group_seq_axioms,
    vstd::std_specs::vec::group_vec_axioms,
};

/// Whether the character at position `i` is escaped: preceded by a
/// backslash that is itself not escaped.
pub open spec fn escaped_at(s: Seq<char>, i: int) -> bool
    decreases i,
{
    if i <= 0 {
        false
    } else {
        s[i - 1] == '\\' && !escaped_at(s, i - 1)
    }
}

/// The `[`/`]` nesting depth reached just before position `i`. Escaped
/// brackets do not count, and an excess closer saturates at zero.
pub open spec fn bracket_depth(s: Seq<char>, i: int) -> int
    decreases i,
{
    if i <= 0 {
        0
    } else {
        let d = bracket_depth(s, i - 1);
        if escaped_at(s, i - 1) {
            d
        } else if s[i - 1] == '[' {
            d + 1
        } else if s[i - 1] == ']' {
            if d > 0 {
                d - 1
            } else {
                0
            }
        } else {
            d
        }
    }
}

/// The `{`/`}` nesting depth reached just before position `i`. Escaped
/// braces do not count, and an excess closer saturates at zero.
pub open spec fn brace_depth(s: Seq<char>, i: int) -> int
    decreases i,
{
    if i <= 0 {
        0
    } else {
        let d = brace_depth(s, i - 1);
        if escaped_at(s, i - 1) {
            d
        } else if s[i - 1] == '{' {
            d + 1
        } else if s[i - 1] == '}' {
            if d > 0 {
                d - 1
            } else {
                0
            }
        } else {
            d
        }
    }
}

/// Whether position `j` is a split point for delimiter `d`: an unescaped
/// occurrence of `d` outside all bracket and brace nesting. The escape
/// character and the four nesting characters themselves never split.
pub open spec fn splits_at(s: Seq<char>, d: char, j: int) -> bool {
    &&& s[j] == d
    &&& !escaped_at(s, j)
    &&& s[j] != '\\' && s[j] != '[' && s[j] != ']' && s[j] != '{' && s[j] != '}'
    &&& bracket_depth(s, j) == 0
    &&& brace_depth(s, j) == 0
}

/// The segments produced from position `j` on, with the current segment
/// starting at `start`. The trailing segment is always emitted, even
/// empty.
pub open spec fn split_segments_from(s: Seq<char>, d: char, j: int, start: int) -> Seq<Seq<char>>
    decreases s.len() - j,
{
    if j >= s.len() {
        seq![s.subrange(start, s.len() as int)]
    } else if splits_at(s, d, j) {
        seq![s.subrange(start, j)] + split_segments_from(s, d, j + 1, j + 1)
    } else {
        split_segments_from(s, d, j + 1, start)
    }
}

/// The segments that tokenizing `s` on delimiter `d` yields: the pieces
/// between split points, with the trailing remainder always present. A
/// string without a split point yields itself as the sole segment.
pub open spec fn split_unescaped_spec(s: Seq<char>, d: char) -> Seq<Seq<char>> {
    split_segments_from(s, d, 0, 0)
}

/// In a string without escape, bracket or brace characters, nothing is
/// ever escaped and both nesting depths stay at zero.
proof fn lemma_all_plain(s: Seq<char>, i: int)
    requires
        forall|k: int|
            0 <= k < s.len() ==> #[trigger] s[k] != '\\' && s[k] != '[' && s[k] != ']' && s[k]
                != '{' && s[k] != '}',
        0 <= i <= s.len(),
    ensures
        !escaped_at(s, i),
        bracket_depth(s, i) == 0,
        brace_depth(s, i) == 0,
    decreases i,
{
    if i > 0 {
        lemma_all_plain(s, i - 1);
    }
}

/// From any position, the segments of the escape-aware split equal the
/// segments of the plain split when the string holds no escape,
/// bracket or brace characters.
proof fn lemma_split_segments_plain(s: Seq<char>, d: char, j: int, start: int)
    requires
        forall|k: int|
            0 <= k < s.len() ==> #[trigger] s[k] != '\\' && s[k] != '[' && s[k] != ']' && s[k]
                != '{' && s[k] != '}',
        0 <= j <= s.len(),
    ensures
        split_segments_from(s, d, j, start) == split_plain_from(s, d, j, start),
    decreases s.len() - j,
{
    if j < s.len() {
        lemma_all_plain(s, j);
        if s[j] == d {
            assert(splits_at(s, d, j));
            lemma_split_segments_plain(s, d, j + 1, j + 1);
        } else {
            assert(!splits_at(s, d, j));
            lemma_split_segments_plain(s, d, j + 1, start);
        }
    }
}

/// A definition containing only unescaped commas and no bracket or
/// brace nesting tokenizes into exactly the comma-separated pieces:
/// on such a string the escape-aware split is the plain split.
pub proof fn lemma_split_unescaped_plain_commas(s: Seq<char>)
    requires
        forall|k: int|
            0 <= k < s.len() ==> #[trigger] s[k] != '\\' && s[k] != '[' && s[k] != ']' && s[k]
                != '{' && s[k] != '}',
    ensures
        split_unescaped_spec(s, ',') == crate::text::split_plain_spec(s, ','),
{
    lemma_split_segments_plain(s, ',', 0, 0);
}

/// Split a string on unescaped occurrences of a delimiter character.
///
/// A delimiter occurrence splits only when it is not part of an escape
/// sequence and both the `[`/`]` and the `{`/`}` nesting depth are zero;
/// unbalanced closers saturate the depth at zero rather than failing.
pub fn split_unescaped(s: &str, delimiter: char) -> (r: Vec<String>)
    ensures
        r.deep_view() == split_unescaped_spec(s@, delimiter),
        r.len() >= 1,
{
    let chars = str_to_chars(s);
    let n = chars.len();
    let mut result: Vec<String> = Vec::new();
    let mut cur: Vec<char> = Vec::new();
    let mut in_escape = false;
    let mut brackets: usize = 0;
    let mut braces: usize = 0;
    let ghost mut start: int = 0;
    let mut j: usize = 0;
    while j < n
        invariant
            n == s@.len(),
            chars@ == s@,
            0 <= start <= j <= n,
            in_escape == escaped_at(s@, j as int),
            brackets <= j,
            braces <= j,
            brackets as int == bracket_depth(s@, j as int),
            braces as int == brace_depth(s@, j as int),
            cur@ == s@.subrange(start, j as int),
            split_unescaped_spec(s@, delimiter) == result.deep_view() + split_segments_from(
                s@,
                delimiter,
                j as int,
                start,
            ),
        decreases n - j,
    {
        let c = chars[j];
        if in_escape {
            in_escape = false;
            cur.push(c);
        } else if c == '\\' {
            in_escape = true;
            cur.push(c);
        } else if c == '[' {
            brackets = brackets + 1;
            cur.push(c);
        } else if c == ']' {
            if brackets > 0 {
                brackets = brackets - 1;
            }
            cur.push(c);
        } else if c == '{' {
            braces = braces + 1;
            cur.push(c);
        } else if c == '}' {
            if braces > 0 {
                braces = braces - 1;
            }
            cur.push(c);
        } else if c == delimiter && brackets == 0 && braces == 0 {
            let piece = chars_to_string(&cur);
            let ghost prev = result.deep_view();
            result.push(piece);
            cur = Vec::new();
            proof {
                assert(splits_at(s@, delimiter, j as int));
                assert(result.deep_view() =~= prev + seq![s@.subrange(start, j as int)]);
                start = j + 1;
            }
        } else {
            cur.push(c);
        }
        j = j + 1;
        proof {
            assert(cur@ =~= s@.subrange(start, j as int));
        }
    }
    let piece = chars_to_string(&cur);
    let ghost prev = result.deep_view();
    result.push(piece);
    proof {
        assert(split_segments_from(s@, delimiter, n as int, start) =~= seq![
            s@.subrange(start, n as int),
        ]);
        assert(result.deep_view() =~= prev + seq![s@.subrange(start, n as int)]);
        assert(result.deep_view() =~= split_unescaped_spec(s@, delimiter));
    }
    result
}

} // verus!
