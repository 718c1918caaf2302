use eyers::services::bookmarks::{extract_bookmarks, process_bookmark, OutlineItem};
use eyers::services::dictionary::{
    fetch_definition, format_result, lookup, Language, LookupResult, Sense, Translation,
};
use eyers::services::pdf_text::{calculate_page_dimensions, extract_word_at_index, RENDER_WIDTH};
use eyers::services::translation::{
    libretranslate_url, translate, translate_request, translate_request_with_langs,
    TranslateReply, TranslationError,
};
use eyers::text::{push_decimal, push_markup_escaped, trim_whitespace};

fn sense(pos: &str, gloss: &str, translations: Vec<Translation>) -> Sense {
    Sense { pos: pos.to_string(), gloss: gloss.to_string(), etymology: None, translations }
}

fn tr(word: &str, roman: Option<&str>) -> Translation {
    Translation { word: word.to_string(), romanization: roman.map(|r| r.to_string()) }
}

#[test]
fn language_codes() {
    assert_eq!(Language::English.code(), "en");
    assert_eq!(Language::Spanish.code(), "es");
    assert_eq!(Language::English.translation_target(), "es");
    assert_eq!(Language::Spanish.translation_target(), "en");
    assert_eq!(Language::default(), Language::English);
}

#[test]
fn lookup_needs_a_sense() {
    assert!(lookup("run", Vec::new()).is_none());
    let r = lookup("run", vec![sense("verb", "to move fast", Vec::new())]).unwrap();
    assert_eq!(r.word, "run");
    assert_eq!(r.senses.len(), 1);
}

#[test]
fn definition_markup_groups_and_numbers_senses() {
    let result = LookupResult {
        word: "run".to_string(),
        senses: vec![
            sense("verb", "to move <fast>", vec![tr("correr", None), tr("бежать", Some("bežatʹ"))]),
            sense("verb", "to flow", Vec::new()),
            sense("noun", "a jog & sprint  ", Vec::new()),
        ],
    };
    let text = format_result(&result, "Run").unwrap();
    let expected = "<span size='large' weight='bold'>Run</span>\n\n\
<b><i>verb</i></b>\n \
1. to move &lt;fast&gt;\n    \
<span color='#666666'><small>correr, бежать (bežatʹ)</small></span>\n \
2. to flow\n\n\
<b><i>noun</i></b>\n \
1. a jog &amp; sprint";
    assert_eq!(text, expected);
}

#[test]
fn fetch_definition_without_lookup_result() {
    assert!(fetch_definition(None, "x").is_none());
    let result = LookupResult { word: "a".to_string(), senses: vec![sense("n", "b", Vec::new())] };
    assert_eq!(
        fetch_definition(Some(result), "A'").unwrap(),
        "<span size='large' weight='bold'>A&apos;</span>\n\n<b><i>n</i></b>\n 1. b"
    );
}

#[test]
fn markup_escaping() {
    let mut s = String::new();
    push_markup_escaped(&mut s, "a<b>&\"c'\u{1}\u{7f}\u{85}\t");
    assert_eq!(s, "a&lt;b&gt;&amp;&quot;c&apos;&#x1;&#x7f;\u{85}\t");
}

#[test]
fn trimming_and_decimals() {
    assert_eq!(trim_whitespace("  \u{2003}hi there \n"), "hi there");
    assert_eq!(trim_whitespace(" \t "), "");
    let mut s = String::new();
    push_decimal(&mut s, 0);
    push_decimal(&mut s, 1234567890);
    assert_eq!(s, "01234567890");
}

#[test]
fn translation_requests() {
    let r = translate_request("hello");
    assert_eq!((r.q.as_str(), r.source.as_str(), r.target.as_str()), ("hello", "en", "es"));
    let r = translate_request_with_langs("hola", "es", "en");
    assert_eq!((r.q.as_str(), r.source.as_str(), r.target.as_str()), ("hola", "es", "en"));
    assert_eq!(libretranslate_url(), "http://localhost:5000/translate");
}

#[test]
fn translation_outcomes() {
    let ok = translate(TranslateReply::Answered {
        status: 200,
        status_text: "200 OK".to_string(),
        body: Ok("hola".to_string()),
    });
    assert_eq!(ok.unwrap(), "hola");
    let not_sent = translate(TranslateReply::NotSent("connection refused".to_string()));
    match not_sent {
        Err(e @ TranslationError::RequestFailed(_)) => {
            assert_eq!(e.to_string(), "Request failed: connection refused")
        }
        _ => panic!("expected a request failure"),
    }
    let status = translate(TranslateReply::Answered {
        status: 503,
        status_text: "503 Service Unavailable".to_string(),
        body: Ok("ignored".to_string()),
    });
    match status {
        Err(e @ TranslationError::RequestFailed(_)) => {
            assert_eq!(e.to_string(), "Request failed: Status: 503 Service Unavailable")
        }
        _ => panic!("expected a request failure"),
    }
    let parse = translate(TranslateReply::Answered {
        status: 299,
        status_text: "299".to_string(),
        body: Err("missing field".to_string()),
    });
    match parse {
        Err(e @ TranslationError::ParseFailed(_)) => {
            assert_eq!(e.to_string(), "Parse failed: missing field")
        }
        _ => panic!("expected a parse failure"),
    }
}

#[test]
fn word_at_a_character() {
    let text = "Don't STOP-me now";
    let w = extract_word_at_index(text, 2).unwrap();
    assert_eq!(w.original, "Don't");
    assert_eq!(w.lowercase, "don't");
    let w = extract_word_at_index(text, 8).unwrap();
    assert_eq!(w.original, "STOP");
    assert_eq!(w.lowercase, "stop");
    assert!(extract_word_at_index(text, 10).is_none());
    assert!(extract_word_at_index(text, 5).is_none());
    assert!(extract_word_at_index(text, 99).is_none());
    let w = extract_word_at_index("Ünïcode ÉTÉ", 9).unwrap();
    assert_eq!(w.original, "ÉTÉ");
    assert_eq!(w.lowercase, "été");
}

#[test]
fn page_dimensions() {
    let d = calculate_page_dimensions(1000, 1294);
    assert_eq!((d.width, d.height, d.stride), (1000, 1294, 4000));
    assert_eq!(RENDER_WIDTH, 1000);
}

#[test]
fn bookmarks_get_defaults_and_depths() {
    let roots = vec![
        OutlineItem {
            title: Some("Intro".to_string()),
            page_index: Some(0),
            children: vec![OutlineItem { title: None, page_index: None, children: Vec::new() }],
        },
        OutlineItem { title: Some("End".to_string()), page_index: Some(9), children: Vec::new() },
    ];
    let entries = extract_bookmarks(&roots);
    assert_eq!(entries.len(), 2);
    assert_eq!(entries[0].title, "Intro");
    assert_eq!(entries[0].depth, 0);
    assert_eq!(entries[0].children[0].title, "Untitled");
    assert_eq!(entries[0].children[0].page_index, 0);
    assert_eq!(entries[0].children[0].depth, 1);
    assert_eq!(entries[1].page_index, 9);
    let e = process_bookmark(&roots[1], 3);
    assert_eq!(e.depth, 3);
}
