//! The value unescaper: resolving backslash escape sequences in raw
//! values.

use vstd::prelude::*;

use crate::text::chars_to_string;
use crate::text::str_to_chars;

verus! {

broadcast use {
    vstd::seq::group_seq_axioms,
    vstd::std_specs::vec::group_vec_axioms,
};

/// The characters whose escape sequence is recognized: `\` `,` `=` `[`
/// `]` `{` `}`.
pub open spec fn is_escapable(c: char) -> bool {
    c == '\\' || c == ',' || c == '=' || c == '[' || c == ']' || c == '{' || c == '}'
}

/// What unescaping yields: a backslash followed by a recognized
/// character maps to that character alone; any other following
/// character is kept together with the backslash; a trailing backslash
/// is kept as it is.
pub open spec fn unescape_spec(s: Seq<char>) -> Seq<char>
    decreases s.len(),
{
    if s.len() == 0 {
        Seq::empty()
    } else if s[0] == '\\' {
        if s.len() == 1 {
            seq!['\\']
        } else if is_escapable(s[1]) {
            seq![s[1]] + unescape_spec(s.subrange(2, s.len() as int))
        } else {
            seq!['\\', s[1]] + unescape_spec(s.subrange(2, s.len() as int))
        }
    } else {
        seq![s[0]] + unescape_spec(s.subrange(1, s.len() as int))
    }
}

/// Unescaping consumes a prefix chunk: the result of the whole is the
/// result of the chunk followed by the result of the rest.
proof fn lemma_unescape_step(s: Seq<char>, k: int)
    requires
        k == 1 && s.len() >= 1 && s[0] != '\\' || k == 2 && s.len() >= 2 && s[0] == '\\',
    ensures
        unescape_spec(s) == unescape_spec(s.subrange(0, k)) + unescape_spec(
            s.subrange(k, s.len() as int),
        ),
{
    let head = s.subrange(0, k);
    let tail = s.subrange(k, s.len() as int);
    assert(unescape_spec(Seq::<char>::empty()) == Seq::<char>::empty());
    if k == 1 {
        assert(head =~= seq![s[0]]);
        assert(head.len() == 1 && head[0] == s[0]);
        assert(head.subrange(1, 1) =~= Seq::<char>::empty());
        assert(unescape_spec(head) == seq![head[0]] + unescape_spec(head.subrange(1, 1)));
        assert(unescape_spec(head) =~= seq![s[0]]);
    } else {
        assert(head =~= seq![s[0], s[1]]);
        assert(head.len() == 2 && head[0] == s[0] && head[1] == s[1]);
        assert(head[0] == '\\');
        assert(head.subrange(2, 2) =~= Seq::<char>::empty());
        if is_escapable(s[1]) {
            assert(unescape_spec(head) == seq![head[1]] + unescape_spec(head.subrange(2, 2)));
            assert(unescape_spec(head) =~= seq![s[1]]);
        } else {
            assert(unescape_spec(head) == seq!['\\', head[1]] + unescape_spec(
                head.subrange(2, 2),
            ));
            assert(unescape_spec(head) =~= seq!['\\', s[1]]);
        }
        assert(s.subrange(2, s.len() as int) =~= tail);
    }
}

/// Resolve backslash escape sequences in a value.
///
/// `\\` `\,` `\=` `\[` `\]` `\{` `\}` map to the bare character; an
/// unrecognized escape keeps both characters; a trailing backslash is
/// kept. Never fails.
pub fn unescape_value(value: &str) -> (r: String)
    ensures
        r@ == unescape_spec(value@),
{
    let chars = str_to_chars(value);
    let n = chars.len();
    proof {
        assert(value@.subrange(0, n as int) =~= value@);
    }
    let mut out: Vec<char> = Vec::new();
    let mut j: usize = 0;
    while j < n
        invariant
            n == value@.len(),
            chars@ == value@,
            j <= n,
            unescape_spec(value@) == out@ + unescape_spec(value@.subrange(j as int, n as int)),
        decreases n - j,
    {
        let ghost rest = value@.subrange(j as int, n as int);
        let c = chars[j];
        if c == '\\' {
            if j + 1 < n {
                let next = chars[j + 1];
                if next == '\\' || next == ',' || next == '=' || next == '[' || next == ']'
                    || next == '{' || next == '}' {
                    out.push(next);
                } else {
                    out.push('\\');
                    out.push(next);
                }
                proof {
                    lemma_unescape_step(rest, 2);
                    assert(rest.subrange(2, rest.len() as int) =~= value@.subrange(
                        j + 2,
                        n as int,
                    ));
                    assert(rest.subrange(0, 2) =~= seq![value@[j as int], value@[j + 1]]);
                }
                j = j + 2;
            } else {
                out.push('\\');
                proof {
                    assert(rest =~= seq!['\\']);
                    assert(value@.subrange(j + 1, n as int) =~= Seq::<char>::empty());
                    assert(unescape_spec(value@.subrange(j + 1, n as int)) =~= Seq::<
                        char,
                    >::empty());
                    assert(out@ + Seq::<char>::empty() =~= out@);
                }
                j = j + 1;
            }
        } else {
            out.push(c);
            proof {
                lemma_unescape_step(rest, 1);
                assert(rest.subrange(1, rest.len() as int) =~= value@.subrange(j + 1, n as int));
                assert(rest.subrange(0, 1) =~= seq![value@[j as int]]);
            }
            j = j + 1;
        }
    }
    proof {
        assert(value@.subrange(n as int, n as int) =~= Seq::<char>::empty());
        assert(unescape_spec(value@) =~= out@);
    }
    chars_to_string(&out)
}

} // verus!
