//! The greeting command exposed to the frontend.

use vstd::prelude::*;

verus! {

/// The greeting returned for a given name.
pub open spec fn greeting(name: Seq<char>) -> Seq<char> {
    "Hello, "@ + name + "! You've been greeted from Rust!"@
}

/// Formats the greeting for `name`.
pub fn greet(name: &str) -> (r: String)
    ensures
        r@ == greeting(name@),
{
    let mut out = "Hello, ".to_owned();
    out.append(name);
    out.append("! You've been greeted from Rust!");
    out
}

} // verus!
