//! Dictionary lookups: the languages a lookup is made in, the senses a dictionary holds for
//! a word, and the Pango markup in which a definition is shown. Querying the dictionary
//! database is the application's part; these functions take what it read.
use vstd::prelude::*;
use crate::text::{
    decimal, markup_escape, push_char, push_decimal, push_markup_escaped, push_str, trim,
    trim_whitespace,
};

verus! {

/// The language mode for dictionary lookups.
#[derive(Debug, Clone, Copy, PartialEq, Eq, Structural)]
pub enum Language {
    English,
    Spanish,
}

impl Default for Language {
    fn default() -> (r: Self)
        ensures
            r == Language::English,
    {
        Language::English
    }
}

/// The ISO 639-1 code of a language.
pub open spec fn language_code(lang: Language) -> Seq<char> {
    match lang {
        Language::English => "en"@,
        Language::Spanish => "es"@,
    }
}

/// The code of the language that translations from `lang` are made into.
pub open spec fn translation_target_code(lang: Language) -> Seq<char> {
    match lang {
        Language::English => "es"@,
        Language::Spanish => "en"@,
    }
}

impl Language {
    /// The ISO 639-1 code of this language.
    pub fn code(&self) -> (r: &'static str)
        ensures
            r@ == language_code(*self),
    {
        match self {
            Language::English => "en",
            Language::Spanish => "es",
        }
    }

    /// The code of the language that translations are made into.
    pub fn translation_target(&self) -> (r: &'static str)
        ensures
            r@ == translation_target_code(*self),
    {
        match self {
            Language::English => "es",
            Language::Spanish => "en",
        }
    }
}

/// A translation of a sense into another language.
#[derive(Debug)]
pub struct Translation {
    pub word: String,
    pub romanization: Option<String>,
}

/// A single sense (definition) of a word.
#[derive(Debug)]
pub struct Sense {
    pub pos: String,
    pub gloss: String,
    pub etymology: Option<String>,
    pub translations: Vec<Translation>,
}

/// The result of a dictionary lookup.
#[derive(Debug)]
pub struct LookupResult {
    pub word: String,
    pub senses: Vec<Sense>,
}

/// The lookup result for `word` from the senses the dictionary holds for it, in the
/// dictionary's order: none when it holds no sense.
pub fn lookup(word: &str, senses: Vec<Sense>) -> (r: Option<LookupResult>)
    ensures
        r is None <==> senses@.len() == 0,
        r matches Some(res) ==> res.word@ == word@ && res.senses@ == senses@,
{
    if senses.len() == 0 {
        return None;
    }
    Some(LookupResult { word: word.to_owned(), senses })
}

/// One translation as shown: the word, then its romanization in brackets when it has one.
pub open spec fn translation_markup(t: Translation) -> Seq<char> {
    markup_escape(t.word@) + match t.romanization {
        Some(roman) => " ("@ + markup_escape(roman@) + ")"@,
        None => Seq::empty(),
    }
}

/// The translations as shown, separated by commas.
pub open spec fn translations_markup(ts: Seq<Translation>) -> Seq<char>
    decreases ts.len(),
{
    if ts.len() == 0 {
        Seq::empty()
    } else if ts.len() == 1 {
        translation_markup(ts[0])
    } else {
        translations_markup(ts.drop_last()) + ", "@ + translation_markup(ts.last())
    }
}

/// Sense `i` opens a group: it is the first sense, or its part of speech differs from
/// that of the sense before it.
pub open spec fn starts_pos_group(senses: Seq<Sense>, i: int) -> bool {
    i == 0 || senses[i - 1].pos@ != senses[i].pos@
}

/// The number of sense `i` within its group, counted from 1.
pub open spec fn definition_number(senses: Seq<Sense>, i: int) -> nat
    decreases i,
{
    if i <= 0 || starts_pos_group(senses, i) {
        1
    } else {
        definition_number(senses, i - 1) + 1
    }
}

/// The markup of sense `i`: a part-of-speech heading when it opens a group (after a
/// blank line unless it is the first), the numbered gloss, and its translations if any.
pub open spec fn sense_markup(senses: Seq<Sense>, i: int) -> Seq<char> {
    let s = senses[i];
    (if starts_pos_group(senses, i) {
        (if i > 0 {
            "\n"@
        } else {
            Seq::empty()
        }) + "<b><i>"@ + markup_escape(s.pos@) + "</i></b>\n"@
    } else {
        Seq::empty()
    }) + " "@ + decimal(definition_number(senses, i)) + ". "@ + markup_escape(s.gloss@) + "\n"@
        + (if s.translations@.len() > 0 {
        "    <span color='#666666'><small>"@ + translations_markup(s.translations@)
            + "</small></span>\n"@
    } else {
        Seq::empty()
    })
}

/// The markup of the first `n` senses.
pub open spec fn senses_markup(senses: Seq<Sense>, n: int) -> Seq<char>
    decreases n,
{
    if n <= 0 {
        Seq::empty()
    } else {
        senses_markup(senses, n - 1) + sense_markup(senses, n - 1)
    }
}

/// The markup of a lookup result under the heading `display_word`, before trimming.
pub open spec fn definition_markup(result: LookupResult, display_word: Seq<char>) -> Seq<char> {
    "<span size='large' weight='bold'>"@ + markup_escape(display_word) + "</span>\n\n"@
        + senses_markup(result.senses@, result.senses@.len() as int)
}

/// What is shown for a lookup result: its markup, trimmed.
pub open spec fn definition_text(result: LookupResult, display_word: Seq<char>) -> Seq<char> {
    trim(definition_markup(result, display_word))
}

/// Appends the translations, separated by commas.
fn push_translations(out: &mut String, ts: &Vec<Translation>)
    ensures
        final(out)@ == old(out)@ + translations_markup(ts@),
{
    let ghost start = out@;
    let mut i: usize = 0;
    while i < ts.len()
        invariant
            i <= ts.len(),
            out@ == start + translations_markup(ts@.take(i as int)),
        decreases ts.len() - i,
    {
        let ghost before = out@;
        if i > 0 {
            push_str(out, ", ");
        }
        let t = &ts[i];
        push_markup_escaped(out, t.word.as_str());
        match &t.romanization {
            Some(roman) => {
                push_str(out, " (");
                push_markup_escaped(out, roman.as_str());
                push_str(out, ")");
            },
            None => {},
        }
        proof {
            let next = ts@.take(i + 1);
            assert(next.drop_last() =~= ts@.take(i as int));
            assert(next.last() == ts@[i as int]);
            if i == 0 {
                assert(next.len() == 1);
                assert(next[0] == ts@[0]);
            }
        }
        assert(out@ =~= start + translations_markup(ts@.take(i + 1)));
        i = i + 1;
    }
    assert(ts@.take(ts.len() as int) =~= ts@);
}

/// Appends the markup of sense `i`, whose number within its group is `number`.
fn push_sense(out: &mut String, senses: &Vec<Sense>, i: usize, number: usize)
    requires
        i < senses.len(),
        number == definition_number(senses@, i as int),
    ensures
        final(out)@ == old(out)@ + sense_markup(senses@, i as int),
{
    let sense = &senses[i];
    let opens = i == 0 || senses[i - 1].pos != sense.pos;
    assert(opens == starts_pos_group(senses@, i as int));
    if opens {
        if i > 0 {
            push_char(out, '\n');
            proof {
                reveal_strlit("\n");
            }
        }
        push_str(out, "<b><i>");
        push_markup_escaped(out, sense.pos.as_str());
        push_str(out, "</i></b>\n");
    }
    push_str(out, " ");
    push_decimal(out, number as u64);
    push_str(out, ". ");
    push_markup_escaped(out, sense.gloss.as_str());
    push_str(out, "\n");
    if sense.translations.len() > 0 {
        push_str(out, "    <span color='#666666'><small>");
        push_translations(out, &sense.translations);
        push_str(out, "</small></span>\n");
    }
    assert(out@ =~= old(out)@ + sense_markup(senses@, i as int));
}

/// Formats a lookup result as Pango markup under the heading `display_word`: the senses
/// grouped by part of speech and numbered within each group, each followed by its
/// translations. Nothing when the trimmed markup is empty.
pub fn format_result(result: &LookupResult, display_word: &str) -> (r: Option<String>)
    ensures
        r is None <==> definition_text(*result, display_word@).len() == 0,
        r matches Some(text) ==> text@ == definition_text(*result, display_word@),
{
    let mut output = String::new();
    push_str(&mut output, "<span size='large' weight='bold'>");
    push_markup_escaped(&mut output, display_word);
    push_str(&mut output, "</span>\n\n");
    let ghost head = output@;
    let senses = &result.senses;
    let mut i: usize = 0;
    let mut number: usize = 0;
    while i < senses.len()
        invariant
            i <= senses.len(),
            output@ == head + senses_markup(senses@, i as int),
            i > 0 ==> number == definition_number(senses@, i - 1),
            number <= i,
        decreases senses.len() - i,
    {
        let opens = i == 0 || senses[i - 1].pos != senses[i].pos;
        if opens {
            number = 1;
        } else {
            number = number + 1;
        }
        assert(number == definition_number(senses@, i as int));
        push_sense(&mut output, senses, i, number);
        i = i + 1;
    }
    let text = trim_whitespace(output.as_str());
    if text.as_str().is_empty() {
        None
    } else {
        Some(text)
    }
}

/// The definition shown for a lookup: nothing when the lookup found nothing, else the
/// lookup result formatted under the heading `display_word`.
pub fn fetch_definition(result: Option<LookupResult>, display_word: &str) -> (r: Option<String>)
    ensures
        result is None ==> r is None,
        result matches Some(res) ==> (r is None <==> definition_text(res, display_word@).len()
            == 0),
        result matches Some(res) ==> (r matches Some(text) ==> text@ == definition_text(
            res,
            display_word@,
        )),
{
    match result {
        None => None,
        Some(res) => format_result(&res, display_word),
    }
}

} // verus!
