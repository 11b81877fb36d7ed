//! The server-sent events that report the progress of a conversion.

use vstd::prelude::*;
use vstd::string::*;
use crate::text::{decimal, decimal_string};

verus! {

/// The event `data: progress_<percent>` followed by a blank line.
pub open spec fn progress_event_spec(progress: u64) -> Seq<char> {
    "data: progress_"@ + decimal(progress as nat) + "\n\n"@
}

/// The event that reports `progress` percent to the client, or `None` when
/// `progress` is 0, which closes the stream instead.
pub fn progress_message(progress: u64) -> (res: Option<String>)
    ensures
        progress == 0 ==> res is None,
        progress != 0 ==> (res matches Some(m) && m@ == progress_event_spec(progress)),
{
    if progress != 0 {
        let number = decimal_string(progress);
        let message = String::from_str("data: progress_").concat(number.as_str()).concat("\n\n");
        Some(message)
    } else {
        None
    }
}

} // verus!
