//! Writing a file.

use vstd::prelude::*;

use crate::text::byte_len;
use crate::text::concat;
use crate::text::text_bytes;

verus! {

/// The arguments of the write tool.
#[derive(Debug)]
pub struct WriteParams {
    pub path: String,
    pub content: String,
}

/// What the write tool reports.
#[derive(Debug)]
pub struct WriteOutput {
    pub path: String,
    pub bytes: usize,
}

/// What the write tool says and reports once the content has been written.
pub fn write_result(input: &WriteParams) -> (r: (String, WriteOutput))
    ensures
        r.0@ == "Successfully wrote to "@ + input.path@,
        r.1.path == input.path,
        r.1.bytes == byte_len(input.content@),
{
    let message = concat("Successfully wrote to ", input.path.as_str());
    let bytes = text_bytes(input.content.as_str());
    (message, WriteOutput { path: input.path.clone(), bytes })
}

} // verus!
