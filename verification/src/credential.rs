//! Credential resolution: the single authentication secret comes from
//! exactly one of two configured sources, an inline value or the contents
//! of a secret file. Both present, or neither, is a fatal configuration
//! error and the process must not start.

use vstd::prelude::*;
use vstd::string::StringExecFns;

use crate::errors::{ApiError, ApiResult};

verus! {

/// Resolves the authentication secret from its two optional sources.
///
/// `inline` is the secret configured directly; `file_contents` is the full
/// contents of the configured secret file, read by the caller (this crate
/// does no I/O), used verbatim. Exactly one of the two must be present:
/// the call succeeds with that source's value, and fails with a
/// configuration error when both are given or neither is.
pub fn resolve_credential(inline: Option<String>, file_contents: Option<String>) -> (r: ApiResult<
    String,
>)
    ensures
        r is Ok <==> (inline is Some <==> file_contents is None),
        inline is Some && file_contents is None ==> (r matches Ok(s) && s@ == inline->0@),
        inline is None && file_contents is Some ==> (r matches Ok(s) && s@ == file_contents->0@),
        r is Err ==> r->Err_0 is Config,
{
    match (inline, file_contents) {
        (Some(secret), None) => Ok(secret),
        (None, Some(secret)) => Ok(secret),
        (Some(_), Some(_)) => Err(
            ApiError::Config {
                message: String::from_str("credential configured twice: inline and from a file"),
            },
        ),
        (None, None) => Err(
            ApiError::Config { message: String::from_str("no credential source configured") },
        ),
    }
}

} // verus!
