//! Small helpers shared by the reports.

use vstd::prelude::*;
use crate::text::append;
use crate::worker::ReqTarget;

verus! {

/// How a target is shown: `"<ip> -> <domain>"`, or the address alone when
/// there is no domain.
pub open spec fn spec_format_host(ip: Seq<char>, domain: Seq<char>) -> Seq<char> {
    if domain.len() > 0 {
        ip + " -> "@ + domain
    } else {
        ip
    }
}

/// Shows a target by its address and domain.
pub fn format_host(target: &ReqTarget) -> (s: String)
    ensures
        s@ == spec_format_host(target.ip@, target.domain@),
{
    if !target.domain.as_str().is_empty() {
        let mut s = target.ip.clone();
        append(&mut s, " -> ");
        append(&mut s, target.domain.as_str());
        s
    } else {
        target.ip.clone()
    }
}

} // verus!
