//! Small character-level helpers shared by the parsing modules.

use vstd::prelude::*;
use vstd::string::StrSliceExecFns;

verus! {

broadcast use {
    vstd::seq::group_seq_axioms,
    vstd::std_specs::vec::group_vec_axioms,
};

/// Read a string out as its characters.
pub fn str_to_chars(s: &str) -> (r: Vec<char>)
    ensures
        r@ == s@,
{
    let n = s.unicode_len();
    let mut v: Vec<char> = Vec::new();
    let mut i: usize = 0;
    while i < n
        invariant
            n == s@.len(),
            i <= n,
            v@ == s@.take(i as int),
        decreases n - i,
    {
        v.push(s.get_char(i));
        i = i + 1;
        proof {
            assert(v@ =~= s@.take(i as int));
        }
    }
    proof {
        assert(s@.take(n as int) =~= s@);
    }
    v
}

/// Relies on `Iterator::collect` assembling a `String` from exactly the
/// characters of the vector, in order.
#[verifier::external_body]
pub(crate) fn chars_to_string(v: &Vec<char>) -> (s: String)
    ensures
        s@ == v@,
{
    v.iter().collect()
}

/// Compare two strings character by character.
pub fn str_eq(a: &str, b: &str) -> (r: bool)
    ensures
        r == (a@ == b@),
{
    let na = a.unicode_len();
    let nb = b.unicode_len();
    if na != nb {
        proof {
            assert(a@.len() != b@.len());
        }
        return false;
    }
    let mut i: usize = 0;
    while i < na
        invariant
            na == a@.len(),
            nb == b@.len(),
            na == nb,
            i <= na,
            forall|k: int| 0 <= k < i ==> a@[k] == b@[k],
        decreases na - i,
    {
        if a.get_char(i) != b.get_char(i) {
            return false;
        }
        i = i + 1;
    }
    proof {
        assert(a@ =~= b@);
    }
    true
}

/// Split a character sequence at every occurrence of `c`, keeping empty
/// pieces; scanning from position `j` with the current piece starting at
/// `start`.
pub open spec fn split_plain_from(s: Seq<char>, c: char, j: int, start: int) -> Seq<Seq<char>>
    decreases s.len() - j,
{
    if j >= s.len() {
        seq![s.subrange(start, s.len() as int)]
    } else if s[j] == c {
        seq![s.subrange(start, j)] + split_plain_from(s, c, j + 1, j + 1)
    } else {
        split_plain_from(s, c, j + 1, start)
    }
}

/// Split a character sequence at every occurrence of `c`. The trailing
/// piece is always present, so the result never has fewer than one piece.
pub open spec fn split_plain_spec(s: Seq<char>, c: char) -> Seq<Seq<char>> {
    split_plain_from(s, c, 0, 0)
}

/// Split a string at every occurrence of `c`, keeping empty pieces.
pub fn split_plain(s: &str, c: char) -> (r: Vec<String>)
    ensures
        r.deep_view() == split_plain_spec(s@, c),
        r.len() >= 1,
{
    let chars = str_to_chars(s);
    let n = chars.len();
    let mut result: Vec<String> = Vec::new();
    let mut cur: Vec<char> = Vec::new();
    let ghost mut start: int = 0;
    let mut j: usize = 0;
    while j < n
        invariant
            n == s@.len(),
            chars@ == s@,
            0 <= start <= j <= n,
            cur@ == s@.subrange(start, j as int),
            split_plain_spec(s@, c) == result.deep_view() + split_plain_from(
                s@,
                c,
                j as int,
                start,
            ),
        decreases n - j,
    {
        let ch = chars[j];
        if ch == c {
            let piece = chars_to_string(&cur);
            let ghost prev = result.deep_view();
            result.push(piece);
            cur = Vec::new();
            proof {
                assert(result.deep_view() =~= prev + seq![s@.subrange(start, j as int)]);
                start = j + 1;
            }
        } else {
            cur.push(ch);
        }
        j = j + 1;
        proof {
            assert(cur@ =~= s@.subrange(start, j as int));
        }
    }
    let piece = chars_to_string(&cur);
    let ghost prev = result.deep_view();
    result.push(piece);
    proof {
        assert(split_plain_from(s@, c, n as int, start) =~= seq![
            s@.subrange(start, s@.len() as int),
        ]);
        assert(result.deep_view() =~= prev + seq![s@.subrange(start, n as int)]);
        assert(result.deep_view() =~= split_plain_spec(s@, c));
    }
    result
}

/// A split always yields at least one piece.
proof fn lemma_split_plain_from_len(s: Seq<char>, c: char, j: int, start: int)
    ensures
        split_plain_from(s, c, j, start).len() >= 1,
    decreases s.len() - j,
{
    if j < s.len() {
        if s[j] == c {
            lemma_split_plain_from_len(s, c, j + 1, j + 1);
        } else {
            lemma_split_plain_from_len(s, c, j + 1, start);
        }
    }
}

/// A split that scanned from `j` and found a single piece found no
/// separator: the piece is the whole remainder.
proof fn lemma_split_plain_from_single(s: Seq<char>, c: char, j: int, start: int)
    requires
        split_plain_from(s, c, j, start).len() == 1,
    ensures
        split_plain_from(s, c, j, start) == seq![s.subrange(start, s.len() as int)],
    decreases s.len() - j,
{
    if j < s.len() {
        if s[j] == c {
            lemma_split_plain_from_len(s, c, j + 1, j + 1);
        } else {
            lemma_split_plain_from_single(s, c, j + 1, start);
        }
    }
}

/// A split with a single piece is the whole sequence: the separator
/// does not occur in it.
pub proof fn lemma_split_single_piece(s: Seq<char>, c: char)
    requires
        split_plain_spec(s, c).len() == 1,
    ensures
        split_plain_spec(s, c)[0] == s,
{
    lemma_split_plain_from_single(s, c, 0, 0);
    assert(s.subrange(0, s.len() as int) =~= s);
}

/// The characters that `str::trim` strips: the Unicode `White_Space` set.
pub open spec fn is_space_char(c: char) -> bool {
    c == ' ' || c == '\t' || c == '\n' || c == '\r' || c == '\u{b}' || c == '\u{c}'
        || c == '\u{85}' || c == '\u{a0}' || c == '\u{1680}' || ('\u{2000}' <= c && c
        <= '\u{200a}') || c == '\u{2028}' || c == '\u{2029}' || c == '\u{202f}' || c == '\u{205f}'
        || c == '\u{3000}'
}

/// Whether a character is in the Unicode `White_Space` set.
pub fn is_space(c: char) -> (r: bool)
    ensures
        r == is_space_char(c),
{
    c == ' ' || c == '\t' || c == '\n' || c == '\r' || c == '\u{b}' || c == '\u{c}'
        || c == '\u{85}' || c == '\u{a0}' || c == '\u{1680}' || ('\u{2000}' <= c && c
        <= '\u{200a}') || c == '\u{2028}' || c == '\u{2029}' || c == '\u{202f}' || c == '\u{205f}'
        || c == '\u{3000}'
}

/// What is left of a sequence after stripping leading white space.
pub open spec fn trim_front_spec(s: Seq<char>) -> Seq<char>
    decreases s.len(),
{
    if s.len() > 0 && is_space_char(s[0]) {
        trim_front_spec(s.subrange(1, s.len() as int))
    } else {
        s
    }
}

/// What is left of a sequence after stripping trailing white space.
pub open spec fn trim_back_spec(s: Seq<char>) -> Seq<char>
    decreases s.len(),
{
    if s.len() > 0 && is_space_char(s[s.len() - 1]) {
        trim_back_spec(s.subrange(0, s.len() - 1))
    } else {
        s
    }
}

/// What `str::trim` leaves: the sequence without leading and trailing
/// white space.
pub open spec fn trim_spec(s: Seq<char>) -> Seq<char> {
    trim_back_spec(trim_front_spec(s))
}

/// Strip leading and trailing white space from a string.
pub fn trim(s: &str) -> (r: String)
    ensures
        r@ == trim_spec(s@),
{
    let chars = str_to_chars(s);
    let n = chars.len();
    proof {
        assert(s@.subrange(0, n as int) =~= s@);
    }
    let mut lo: usize = 0;
    while lo < n && is_space(chars[lo])
        invariant
            n == s@.len(),
            chars@ == s@,
            lo <= n,
            trim_front_spec(s@) == trim_front_spec(s@.subrange(lo as int, n as int)),
        decreases n - lo,
    {
        proof {
            let tail = s@.subrange(lo as int, n as int);
            assert(tail.subrange(1, tail.len() as int) =~= s@.subrange(lo as int + 1, n as int));
        }
        lo = lo + 1;
    }
    proof {
        let tail = s@.subrange(lo as int, n as int);
        if lo < n {
            assert(!is_space_char(tail[0]));
        }
        assert(trim_front_spec(s@) == tail);
    }
    let mut hi: usize = n;
    while hi > lo && is_space(chars[hi - 1])
        invariant
            n == s@.len(),
            chars@ == s@,
            lo <= hi <= n,
            trim_front_spec(s@) == s@.subrange(lo as int, n as int),
            trim_back_spec(s@.subrange(lo as int, n as int)) == trim_back_spec(
                s@.subrange(lo as int, hi as int),
            ),
        decreases hi,
    {
        proof {
            let part = s@.subrange(lo as int, hi as int);
            assert(part[part.len() - 1] == s@[hi - 1]);
            assert(part.subrange(0, part.len() - 1) =~= s@.subrange(lo as int, hi as int - 1));
        }
        hi = hi - 1;
    }
    let mut out: Vec<char> = Vec::new();
    let mut j: usize = lo;
    while j < hi
        invariant
            n == s@.len(),
            chars@ == s@,
            lo <= j <= hi <= n,
            out@ == s@.subrange(lo as int, j as int),
        decreases hi - j,
    {
        out.push(chars[j]);
        j = j + 1;
        proof {
            assert(out@ =~= s@.subrange(lo as int, j as int));
        }
    }
    proof {
        let part = s@.subrange(lo as int, hi as int);
        if hi > lo {
            assert(!is_space_char(part[part.len() - 1]));
        }
        assert(trim_back_spec(part) == part);
        assert(trim_spec(s@) == part);
    }
    chars_to_string(&out)
}

} // verus!
