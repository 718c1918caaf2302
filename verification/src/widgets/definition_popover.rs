//! The definition popover's text.
use vstd::prelude::*;
use crate::text::push_str;

verus! {

/// What the popover shows for a lookup of `lookup_word`: the definition's markup, or a
/// message that no definition was found.
pub fn definition_or_not_found(definition: Option<String>, lookup_word: &str) -> (r: String)
    ensures
        definition matches Some(d) ==> r@ == d@,
        definition is None ==> r@ == "Definition for <b>"@ + lookup_word@ + "</b> not found."@,
{
    match definition {
        Some(d) => d,
        None => {
            let mut out = String::new();
            push_str(&mut out, "Definition for <b>");
            push_str(&mut out, lookup_word);
            push_str(&mut out, "</b> not found.");
            out
        },
    }
}

} // verus!
