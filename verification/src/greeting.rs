use vstd::prelude::*;
use crate::text::push_str;

verus! {

/// The greeting for `name`: `Hello, <name>! Welcome to the local library.`
pub fn greet(name: &str) -> (message: String)
    ensures
        message@ == "Hello, "@ + name@ + "! Welcome to the local library."@,
{
    let mut message = String::new();
    push_str(&mut message, "Hello, ");
    push_str(&mut message, name);
    push_str(&mut message, "! Welcome to the local library.");
    message
}

} // verus!
