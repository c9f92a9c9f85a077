//! Building messages out of text.

use vstd::prelude::*;
use vstd::string::*;

verus! {

/// `prefix` followed by `detail`.
pub fn prefixed(prefix: &str, detail: &str) -> (text: String)
    ensures
        text@ == prefix@ + detail@,
{
    let mut text = String::from_str(prefix);
    text.append(detail);
    text
}

/// `detail` between `before` and `after`.
pub fn surrounded(before: &str, detail: &str, after: &str) -> (text: String)
    ensures
        text@ == before@ + detail@ + after@,
{
    let mut text = String::from_str(before);
    text.append(detail);
    text.append(after);
    text
}

} // verus!
