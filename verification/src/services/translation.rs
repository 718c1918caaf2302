//! Translation through a LibreTranslate service: the request that is sent for a text, and
//! what the service's reply means. Sending the request is the application's part.
use vstd::prelude::*;
use crate::text::push_str;

verus! {

/// The address of the translation service.
pub fn libretranslate_url() -> (r: &'static str)
    ensures
        r@ == "http://localhost:5000/translate"@,
{
    "http://localhost:5000/translate"
}

/// The body of a translation request: the text, and the languages to translate between.
#[derive(Debug)]
pub struct TranslateRequest {
    pub q: String,
    pub source: String,
    pub target: String,
}

/// Why a translation failed.
#[derive(Debug)]
pub enum TranslationError {
    RequestFailed(String),
    ParseFailed(String),
}

/// The message of a translation error.
pub open spec fn translation_error_message(e: TranslationError) -> Seq<char> {
    match e {
        TranslationError::RequestFailed(msg) => "Request failed: "@ + msg@,
        TranslationError::ParseFailed(msg) => "Parse failed: "@ + msg@,
    }
}

impl TranslationError {
    /// The message shown for the error.
    pub fn to_string(&self) -> (r: String)
        ensures
            r@ == translation_error_message(*self),
    {
        let mut s = String::new();
        match self {
            TranslationError::RequestFailed(msg) => {
                push_str(&mut s, "Request failed: ");
                push_str(&mut s, msg.as_str());
            },
            TranslationError::ParseFailed(msg) => {
                push_str(&mut s, "Parse failed: ");
                push_str(&mut s, msg.as_str());
            },
        }
        s
    }
}

/// `r` asks to translate `text` from `source` into `target`.
pub open spec fn requests(r: TranslateRequest, text: Seq<char>, source: Seq<char>, target: Seq<char>) -> bool {
    &&& r.q@ == text
    &&& r.source@ == source
    &&& r.target@ == target
}

/// The request that translates `text` from `source` into `target`.
pub fn translate_request_with_langs(text: &str, source: &str, target: &str) -> (r:
    TranslateRequest)
    ensures
        requests(r, text@, source@, target@),
{
    TranslateRequest { q: text.to_owned(), source: source.to_owned(), target: target.to_owned() }
}

/// The request that translates `text` from English into Spanish: the one that
/// `translate_request_with_langs` makes for `text`, `"en"` and `"es"`.
pub fn translate_request(text: &str) -> (r: TranslateRequest)
    ensures
        requests(r, text@, "en"@, "es"@),
{
    translate_request_with_langs(text, "en", "es")
}

/// What came of sending a translation request.
#[derive(Debug)]
pub enum TranslateReply {
    /// The request could not be sent; the message says why.
    NotSent(String),
    /// The service answered with an HTTP status (its code, and the status as text, such as
    /// "404 Not Found") and a body, read as a translation or failing with a message.
    Answered { status: u16, status_text: String, body: Result<String, String> },
}

/// An HTTP status in the success class, 200 to 299.
pub open spec fn is_success_status(code: u16) -> bool {
    200 <= code && code <= 299
}

/// What the translation of a text is, given the service's reply to its request.
pub open spec fn translation_outcome(reply: TranslateReply, r: Result<String, TranslationError>) -> bool {
    match reply {
        TranslateReply::NotSent(msg) => r matches Err(TranslationError::RequestFailed(m))
            && m@ == msg@,
        TranslateReply::Answered { status, status_text, body } => if !is_success_status(status) {
            r matches Err(TranslationError::RequestFailed(m)) && m@ == "Status: "@
                + status_text@
        } else {
            match body {
                Ok(text) => r matches Ok(t) && t@ == text@,
                Err(msg) => r matches Err(TranslationError::ParseFailed(m)) && m@ == msg@,
            }
        },
    }
}

/// The translation given the service's reply: the translated text when the service answered
/// with a success status and a body that reads as a translation; a request failure when the
/// request was not sent or the status is not a success; a parse failure otherwise.
pub fn translate(reply: TranslateReply) -> (r: Result<String, TranslationError>)
    ensures
        translation_outcome(reply, r),
{
    match reply {
        TranslateReply::NotSent(msg) => Err(TranslationError::RequestFailed(msg)),
        TranslateReply::Answered { status, status_text, body } => {
            if !(200 <= status && status <= 299) {
                let mut m = String::new();
                push_str(&mut m, "Status: ");
                push_str(&mut m, status_text.as_str());
                return Err(TranslationError::RequestFailed(m));
            }
            match body {
                Ok(text) => Ok(text),
                Err(msg) => Err(TranslationError::ParseFailed(msg)),
            }
        },
    }
}

} // verus!
