//! Platform-specific configuration and path normalization.

use vstd::prelude::*;

use crate::text::chars_to_string;
use crate::text::str_to_chars;

verus! {

broadcast use {
    vstd::seq::group_seq_axioms,
    vstd::std_specs::vec::group_vec_axioms,
};

/// Platform-specific configuration.
pub struct PlatformConfig {
    /// Line endings for this platform.
    pub line_endings: &'static str,
    /// Maximum path length for this platform.
    pub max_path_length: usize,
    /// Whether the filesystem is case-sensitive.
    pub case_sensitive: bool,
}

/// Get the configuration of the platform this library is built for: a
/// Unix-like system with `\n` line endings, 4096-byte paths and a
/// case-sensitive filesystem.
pub fn get_platform_config() -> (r: PlatformConfig)
    ensures
        r.line_endings@ == ("\n")@,
        r.max_path_length == 4096,
        r.case_sensitive,
{
    PlatformConfig { line_endings: "\n", max_path_length: 4096, case_sensitive: true }
}

/// What normalization does to each character: backslashes become
/// forward slashes.
pub open spec fn normalize_char(c: char) -> char {
    if c == '\\' {
        '/'
    } else {
        c
    }
}

/// Normalize a path to use forward slashes consistently.
pub fn normalize_path(path: &str) -> (r: String)
    ensures
        r@ == path@.map_values(|c: char| normalize_char(c)),
{
    let chars = str_to_chars(path);
    let n = chars.len();
    let mut out: Vec<char> = Vec::new();
    let mut i: usize = 0;
    while i < n
        invariant
            n == path@.len(),
            chars@ == path@,
            i <= n,
            out@ == path@.take(i as int).map_values(|c: char| normalize_char(c)),
        decreases n - i,
    {
        let c = chars[i];
        if c == '\\' {
            out.push('/');
        } else {
            out.push(c);
        }
        i = i + 1;
        proof {
            assert(out@ =~= path@.take(i as int).map_values(|c: char| normalize_char(c)));
        }
    }
    proof {
        assert(path@.take(n as int) =~= path@);
    }
    chars_to_string(&out)
}

/// Get the appropriate line ending for the current platform.
pub fn get_line_ending() -> (r: &'static str)
    ensures
        r@ == ("\n")@,
{
    get_platform_config().line_endings
}

/// Check if the filesystem is case-sensitive.
pub fn is_case_sensitive() -> (r: bool)
    ensures
        r,
{
    get_platform_config().case_sensitive
}

/// Get the maximum path length for the current platform.
pub fn get_max_path_length() -> (r: usize)
    ensures
        r == 4096,
{
    get_platform_config().max_path_length
}

} // verus!
