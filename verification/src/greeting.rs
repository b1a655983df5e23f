//! The welcome line shown to a front-end user.

use vstd::prelude::*;
use vstd::string::*;

verus! {

/// The text of the welcome line for `name`.
pub open spec fn greeting_text(name: Seq<char>) -> Seq<char> {
    "Hello, "@ + name + "! Welcome to ReqSmith."@
}

/// Builds the welcome line for `name`.
pub fn greet(name: &str) -> (line: String)
    ensures
        line@ == greeting_text(name@),
{
    let mut line = String::from_str("Hello, ");
    line.append(name);
    line.append("! Welcome to ReqSmith.");
    line
}

} // verus!
