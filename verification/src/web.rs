//! Messages of the web UI.

use vstd::prelude::*;
use crate::text::{append, owned};

verus! {

/// A line the web UI reports.
pub struct UIMessage {
    pub message: String,
}

/// The message reported when a database query fails.
pub fn db_error_message(err: &str) -> (m: UIMessage)
    ensures
        m.message@ == "[ERROR] Db query error: "@ + err@,
{
    let mut s = owned("[ERROR] Db query error: ");
    append(&mut s, err);
    UIMessage { message: s }
}

} // verus!
