use std::time::UNIX_EPOCH;
use vstd::prelude::*;

use crate::error::Error;

verus! {

/// Relies on `SystemTime::elapsed` of the Unix epoch: the time since then in
/// whole seconds, or an error when the clock reads a time before it. Nothing
/// is known of the value itself.
#[verifier::external_body]
pub(crate) fn time_now_secs_since_epoch() -> (r: Result<u64, Error>)
{
    match UNIX_EPOCH.elapsed() {
        Ok(since) => Ok(since.as_secs()),
        Err(err) => Err(Error::Custom(format!("Unable to determine the current time: {}", err))),
    }
}

} // verus!
