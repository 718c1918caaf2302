//! The settings window's dictionary language choice.
use vstd::prelude::*;
use crate::services::dictionary::Language;

verus! {

/// The language of the entry selected in the language list: Spanish for the second entry,
/// English otherwise.
pub fn language_from_selected(selected: u32) -> (r: Language)
    ensures
        r == (if selected == 1 {
            Language::Spanish
        } else {
            Language::English
        }),
{
    if selected == 1 {
        Language::Spanish
    } else {
        Language::English
    }
}

/// The entry of the language list that shows `lang`.
pub fn selected_for_language(lang: Language) -> (r: u32)
    ensures
        r == (match lang {
            Language::English => 0u32,
            Language::Spanish => 1u32,
        }),
{
    match lang {
        Language::English => 0,
        Language::Spanish => 1,
    }
}

/// Selecting the entry that shows a language selects that language.
pub proof fn lemma_language_entry_round_trip(lang: Language)
    ensures
        (if (match lang {
            Language::English => 0u32,
            Language::Spanish => 1u32,
        }) == 1 {
            Language::Spanish
        } else {
            Language::English
        }) == lang,
{
}

} // verus!
