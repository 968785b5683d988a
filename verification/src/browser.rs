//! Which targets get a screenshot, and of what address.

use vstd::prelude::*;
use crate::text::{append, decimal, str_eq, u64_to_decimal};
use crate::worker::ReqTarget;

verus! {

/// The address a screenshot is taken of: only HTTP(S) targets get one, at
/// `"<protocol>://<domain or ip>:<port>"`.
pub open spec fn spec_screenshot_url(t: ReqTarget) -> Option<Seq<char>> {
    if t.protocol@ != "https"@ && t.protocol@ != "http"@ {
        None
    } else {
        Some(t.protocol@ + "://"@ + (if t.domain@.len() > 0 { t.domain@ } else { t.ip@ }) + ":"@ + decimal(t.port as nat))
    }
}

/// The address a screenshot of the target is taken of, if any.
pub fn screenshot_url(target: &ReqTarget) -> (r: Option<String>)
    ensures
        match r {
            Some(u) => spec_screenshot_url(*target) == Some(u@),
            None => spec_screenshot_url(*target) is None,
        },
{
    if !str_eq(target.protocol.as_str(), "https") && !str_eq(target.protocol.as_str(), "http") {
        return None;
    }
    let mut u = target.protocol.clone();
    append(&mut u, "://");
    if !target.domain.as_str().is_empty() {
        append(&mut u, target.domain.as_str());
    } else {
        append(&mut u, target.ip.as_str());
    }
    append(&mut u, ":");
    let p = u64_to_decimal(target.port as u64);
    append(&mut u, p.as_str());
    Some(u)
}

} // verus!
