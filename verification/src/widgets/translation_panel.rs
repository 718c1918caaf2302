//! The translation panel's message for a failed translation.
use vstd::prelude::*;
use crate::text::{markup_escape, push_markup_escaped, push_str};

verus! {

/// The markup shown for a translation error: the message, escaped, in red.
pub fn error_markup(error: &str) -> (r: String)
    ensures
        r@ == "<span color='red'>"@ + markup_escape(error@) + "</span>"@,
{
    let mut out = String::new();
    push_str(&mut out, "<span color='red'>");
    push_markup_escaped(&mut out, error);
    push_str(&mut out, "</span>");
    out
}

} // verus!
