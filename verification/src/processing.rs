//! Validation of paths and of input/output argument combinations.

use vstd::prelude::*;
use vstd::string::StrSliceExecFns;

use crate::error::ShinkansenError;
use crate::text::split_plain;
use crate::text::split_plain_spec;
use crate::text::str_eq;
use crate::text::str_to_chars;

verus! {

broadcast use {
    vstd::seq::group_seq_axioms,
    vstd::slice::group_slice_axioms,
    vstd::std_specs::vec::group_vec_axioms,
};

/// Whether some `/`-separated component of the path is `..`.
pub open spec fn has_parent_component(p: Seq<char>) -> bool {
    exists|i: int|
        0 <= i < split_plain_spec(p, '/').len() && #[trigger] split_plain_spec(p, '/')[i] == (
        "..")@
}

/// A control character: the Unicode `Cc` category.
pub open spec fn is_control_char(c: char) -> bool {
    (c as u32) < 0x20 || (0x7f <= c as u32 && c as u32 <= 0x9f)
}

/// Whether the path holds a control character.
pub open spec fn has_control_char(p: Seq<char>) -> bool {
    exists|i: int| 0 <= i < p.len() && is_control_char(#[trigger] p[i])
}

/// The byte length of a path: its UTF-8 encoding.
pub open spec fn byte_len(p: Seq<char>) -> nat {
    vstd::utf8::encode_utf8(p).len()
}

/// The outcome of a validation: accepted, or one of the two error
/// kinds with its message.
pub enum ArgsCheck {
    Accepted,
    Security(Seq<char>),
    Invalid(Seq<char>),
}

/// What validating a path yields: parent-directory references and
/// control characters are security errors, an over-long path is a
/// validation error, checked in that order.
pub open spec fn path_check(p: Seq<char>) -> ArgsCheck {
    if has_parent_component(p) {
        ArgsCheck::Security(("Invalid path - contains parent directory references")@)
    } else if byte_len(p) > 4096 {
        ArgsCheck::Invalid(("Path too long (max 4096 characters)")@)
    } else if has_control_char(p) {
        ArgsCheck::Security(("Path contains invalid control characters")@)
    } else {
        ArgsCheck::Accepted
    }
}

/// Validate a path for security issues: no parent-directory
/// references, at most 4096 bytes, no control characters.
#[verifier::loop_isolation(false)]
pub fn validate_path(path: &str) -> (r: Result<(), ShinkansenError>)
    ensures
        (match path_check(path@) {
            ArgsCheck::Accepted => r is Ok,
            ArgsCheck::Security(m) => r matches Err(e) && e matches ShinkansenError::SecurityError(
                s,
            ) && s@ == m,
            ArgsCheck::Invalid(m) => r matches Err(e) && e matches ShinkansenError::ValidationError(
                s,
            ) && s@ == m,
        }),
{
    let components = split_plain(path, '/');
    let nc = components.len();
    let mut i: usize = 0;
    while i < nc
        invariant
            i <= nc,
            nc == split_plain_spec(path@, '/').len(),
            components.deep_view() == split_plain_spec(path@, '/'),
            forall|k: int| 0 <= k < i ==> #[trigger] split_plain_spec(path@, '/')[k] != ("..")@,
        decreases nc - i,
    {
        proof {
            assert(split_plain_spec(path@, '/')[i as int] == components@[i as int]@);
        }
        if str_eq(components[i].as_str(), "..") {
            return Err(
                ShinkansenError::SecurityError(
                    String::from_str("Invalid path - contains parent directory references"),
                ),
            );
        }
        i = i + 1;
    }
    proof {
        assert(!has_parent_component(path@));
    }
    let byte_count = path.as_bytes().len();
    proof {
        assert(byte_count == byte_len(path@));
    }
    if byte_count > 4096 {
        return Err(
            ShinkansenError::ValidationError(
                String::from_str("Path too long (max 4096 characters)"),
            ),
        );
    }
    let chars = str_to_chars(path);
    let n = chars.len();
    let mut j: usize = 0;
    while j < n
        invariant
            j <= n,
            n == path@.len(),
            chars@ == path@,
            forall|k: int| 0 <= k < j ==> !is_control_char(#[trigger] path@[k]),
        decreases n - j,
    {
        let c = chars[j] as u32;
        if c < 0x20 || (0x7f <= c && c <= 0x9f) {
            proof {
                assert(is_control_char(path@[j as int]));
                assert(has_control_char(path@));
            }
            return Err(
                ShinkansenError::SecurityError(
                    String::from_str("Path contains invalid control characters"),
                ),
            );
        }
        j = j + 1;
    }
    proof {
        assert(!has_control_char(path@));
    }
    Ok(())
}

/// Whether the inputs mean reading from stdin: no input at all, or the
/// single input `-`.
pub open spec fn using_stdin(inputs: Seq<Seq<char>>) -> bool {
    inputs.len() == 0 || (inputs.len() == 1 && inputs[0] == ("-")@)
}

/// What validating the input/output combination yields, checked in
/// order: `-` among several inputs; stdin together with an existing
/// directory output (after validating that path); stdout with several
/// inputs; several inputs with an existing non-directory output (after
/// validating that path); several inputs without an output.
pub open spec fn args_check(
    inputs: Seq<Seq<char>>,
    output: Option<Seq<char>>,
    output_exists: bool,
    output_is_dir: bool,
) -> ArgsCheck {
    let stdin = using_stdin(inputs);
    let single_input = stdin || inputs.len() == 1;
    let stdout = output matches Some(o) && o == ("-")@;
    if inputs.len() > 1 && (exists|i: int| 0 <= i < inputs.len() && #[trigger] inputs[i] == ("-")@) {
        ArgsCheck::Invalid(("Cannot use '-' (stdin) with other input files")@)
    } else if stdin && (output matches Some(o) && o != ("-")@) {
        let o = output->0;
        if !(path_check(o) is Accepted) {
            path_check(o)
        } else if output_exists && output_is_dir {
            ArgsCheck::Invalid(
                ("Cannot use directory output with stdin. Use '-' for stdout or specify a filename")@,
            )
        } else {
            ArgsCheck::Accepted
        }
    } else if !single_input && stdout {
        ArgsCheck::Invalid(("Cannot use '-' (stdout) with multiple inputs")@)
    } else if !single_input && output is Some && !stdout {
        let o = output->0;
        if !(path_check(o) is Accepted) {
            path_check(o)
        } else if output_exists && !output_is_dir {
            ArgsCheck::Invalid(("Multiple inputs require output to be a directory")@)
        } else {
            ArgsCheck::Accepted
        }
    } else if !single_input && output is None {
        ArgsCheck::Invalid(("Multiple inputs require --output directory")@)
    } else {
        ArgsCheck::Accepted
    }
}

/// Validate input/output combinations.
///
/// `output_exists` and `output_is_dir` report what the filesystem says
/// of the output path; the caller queries them.
#[verifier::loop_isolation(false)]
pub fn validate_args(
    inputs: &Vec<String>,
    output: &Option<String>,
    output_exists: bool,
    output_is_dir: bool,
) -> (r: Result<(), ShinkansenError>)
    ensures
        (match args_check(
            inputs.deep_view(),
            match *output {
                Some(o) => Some(o@),
                None => None,
            },
            output_exists,
            output_is_dir,
        ) {
            ArgsCheck::Accepted => r is Ok,
            ArgsCheck::Security(m) => r matches Err(e) && e matches ShinkansenError::SecurityError(
                s,
            ) && s@ == m,
            ArgsCheck::Invalid(m) => r matches Err(e) && e matches ShinkansenError::ValidationError(
                s,
            ) && s@ == m,
        }),
{
    let n = inputs.len();
    let stdin = n == 0 || (n == 1 && str_eq(inputs[0].as_str(), "-"));
    proof {
        if n >= 1 {
            assert(inputs.deep_view()[0] == inputs@[0]@);
        }
        assert(stdin == using_stdin(inputs.deep_view()));
    }
    if n > 1 {
        let mut i: usize = 0;
        while i < n
            invariant
                i <= n,
                n == inputs@.len(),
                forall|k: int| 0 <= k < i ==> #[trigger] inputs.deep_view()[k] != ("-")@,
            decreases n - i,
        {
            proof {
                assert(inputs.deep_view()[i as int] == inputs@[i as int]@);
            }
            if str_eq(inputs[i].as_str(), "-") {
                return Err(
                    ShinkansenError::ValidationError(
                        String::from_str("Cannot use '-' (stdin) with other input files"),
                    ),
                );
            }
            i = i + 1;
        }
    }
    let single_input = stdin || n == 1;
    let stdout = match output {
        Some(o) => str_eq(o.as_str(), "-"),
        None => false,
    };
    if stdin {
        match output {
            Some(o) => {
                if !str_eq(o.as_str(), "-") {
                    match validate_path(o.as_str()) {
                        Ok(_u) => {},
                        Err(e) => {
                            return Err(e);
                        },
                    }
                    if output_exists && output_is_dir {
                        return Err(
                            ShinkansenError::ValidationError(
                                String::from_str(
                                    "Cannot use directory output with stdin. Use '-' for stdout or specify a filename",
                                ),
                            ),
                        );
                    }
                }
            },
            None => {},
        }
    }
    if !single_input && stdout {
        return Err(
            ShinkansenError::ValidationError(
                String::from_str("Cannot use '-' (stdout) with multiple inputs"),
            ),
        );
    }
    if !single_input && !stdout {
        match output {
            Some(o) => {
                match validate_path(o.as_str()) {
                    Ok(_u) => {},
                    Err(e) => {
                        return Err(e);
                    },
                }
                if output_exists && !output_is_dir {
                    return Err(
                        ShinkansenError::ValidationError(
                            String::from_str("Multiple inputs require output to be a directory"),
                        ),
                    );
                }
            },
            None => {},
        }
    }
    if !single_input {
        match output {
            Some(_o) => {},
            None => {
                return Err(
                    ShinkansenError::ValidationError(
                        String::from_str("Multiple inputs require --output directory"),
                    ),
                );
            },
        }
    }
    Ok(())
}

} // verus!
