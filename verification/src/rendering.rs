//! Validation of template content before it is handed to the renderer.

use vstd::prelude::*;
use vstd::string::StringExecFns;

use crate::error::ShinkansenError;
use crate::processing::byte_len;

verus! {

broadcast use vstd::slice::group_slice_axioms;

/// Validate template content for size constraints: at most one
/// megabyte of UTF-8 bytes.
pub fn validate_template_content(content: &str) -> (r: Result<(), ShinkansenError>)
    ensures
        r is Ok <==> byte_len(content@) <= 1048576,
        r matches Err(e) ==> e matches ShinkansenError::ValidationError(m) && m@ == (
        "Template content too large (max 1MB)")@,
{
    let byte_count = content.as_bytes().len();
    proof {
        assert(byte_count == byte_len(content@));
    }
    if byte_count > 1048576 {
        Err(ShinkansenError::ValidationError(String::from_str("Template content too large (max 1MB)")))
    } else {
        Ok(())
    }
}

} // verus!
