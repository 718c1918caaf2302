//! Characters and strings: classification of characters, decimal numbers, markup escaping.
use vstd::prelude::*;
use vstd::std_specs::iter::IteratorSpec;

verus! {

/// What `char::is_alphanumeric` returns for a character.
pub uninterp spec fn spec_is_alphanumeric(c: char) -> bool;

/// What `char::is_whitespace` returns for a character.
pub uninterp spec fn spec_is_whitespace(c: char) -> bool;

/// The first character of what `char::to_lowercase` yields for a character.
pub uninterp spec fn spec_lowercase_first(c: char) -> char;

/// What `str::to_lowercase` returns for a text.
pub uninterp spec fn spec_to_lowercase(s: Seq<char>) -> Seq<char>;

/// An ASCII letter or digit.
pub open spec fn is_ascii_alphanumeric(c: char) -> bool {
    ('a' <= c && c <= 'z') || ('A' <= c && c <= 'Z') || ('0' <= c && c <= '9')
}

/// The ASCII characters with the Unicode White_Space property: tab, line feed,
/// vertical tab, form feed, carriage return and space.
pub open spec fn is_ascii_white_space(c: char) -> bool {
    c == '\t' || c == '\n' || c == '\u{0B}' || c == '\u{0C}' || c == '\r' || c == ' '
}

/// `char::is_alphanumeric`: whether the character is alphabetic or numeric in Unicode.
/// The contract names the result and states it for ASCII characters, where it means an
/// ASCII letter or digit; for other characters it is left to the named result.
#[verifier::external_body]
pub(crate) fn is_alphanumeric(c: char) -> (r: bool)
    ensures
        r == spec_is_alphanumeric(c),
        (c as u32) < 128 ==> (r == is_ascii_alphanumeric(c)),
{
    c.is_alphanumeric()
}

/// `char::is_whitespace`: whether the character has the Unicode White_Space property.
/// The contract names the result and states it for ASCII characters.
#[verifier::external_body]
pub(crate) fn is_whitespace(c: char) -> (r: bool)
    ensures
        r == spec_is_whitespace(c),
        (c as u32) < 128 ==> (r == is_ascii_white_space(c)),
{
    c.is_whitespace()
}

/// The first character of `char::to_lowercase` (which always yields at least one).
/// The contract names the result and states it for ASCII characters: upper-case letters
/// map to their lower-case letter, every other ASCII character to itself.
#[verifier::external_body]
pub(crate) fn lowercase_first(c: char) -> (r: char)
    ensures
        r == spec_lowercase_first(c),
        ('A' <= c && c <= 'Z') ==> (r as u32) == (c as u32) + 32,
        ((c as u32) < 128 && !('A' <= c && c <= 'Z')) ==> r == c,
{
    match c.to_lowercase().next() {
        Some(l) => l,
        None => c,
    }
}

/// `str::to_lowercase`: the lower-case equivalent of a text, by the Unicode Lowercase
/// mapping. The contract names the result only.
#[verifier::external_body]
pub(crate) fn to_lowercase(s: &str) -> (r: String)
    ensures
        r@ == spec_to_lowercase(s@),
{
    s.to_lowercase()
}

/// `String::push`: appends one character.
#[verifier::external_body]
pub(crate) fn push_char(s: &mut String, c: char)
    ensures
        final(s)@ == old(s)@.push(c),
{
    s.push(c);
}

/// The character of a decimal digit.
pub open spec fn digit_char(d: nat) -> char {
    ((48 + d) as u8) as char
}

/// The decimal representation of a natural number, without leading zeros.
pub open spec fn decimal(n: nat) -> Seq<char>
    decreases n,
{
    if n < 10 {
        seq![digit_char(n)]
    } else {
        decimal(n / 10).push(digit_char(n % 10))
    }
}

/// The character of a lower-case hexadecimal digit.
pub open spec fn hex_digit_char(d: nat) -> char {
    if d < 10 {
        ((48 + d) as u8) as char
    } else {
        ((87 + d) as u8) as char
    }
}

/// The lower-case hexadecimal representation of a natural number, without leading zeros.
pub open spec fn hex_lower(n: nat) -> Seq<char>
    decreases n,
{
    if n < 16 {
        seq![hex_digit_char(n)]
    } else {
        hex_lower(n / 16).push(hex_digit_char(n % 16))
    }
}

fn digit_to_char(d: u64) -> (c: char)
    requires
        d < 10,
    ensures
        c == digit_char(d as nat),
{
    let b: u8 = (d as u8) + 48;
    b as char
}

fn hex_digit_to_char(d: u32) -> (c: char)
    requires
        d < 16,
    ensures
        c == hex_digit_char(d as nat),
{
    if d < 10 {
        let b: u8 = (d as u8) + 48;
        b as char
    } else {
        let b: u8 = (d as u8) + 87;
        b as char
    }
}

/// Appends the decimal representation of `n`.
pub fn push_decimal(s: &mut String, n: u64)
    ensures
        final(s)@ == old(s)@ + decimal(n as nat),
    decreases n,
{
    if n >= 10 {
        push_decimal(s, n / 10);
        push_char(s, digit_to_char(n % 10));
        assert(decimal(n as nat) == decimal((n / 10) as nat).push(digit_char((n % 10) as nat)));
    } else {
        push_char(s, digit_to_char(n));
    }
}

/// Appends the lower-case hexadecimal representation of `n`.
pub fn push_hex_lower(s: &mut String, n: u32)
    ensures
        final(s)@ == old(s)@ + hex_lower(n as nat),
    decreases n,
{
    if n >= 16 {
        push_hex_lower(s, n / 16);
        push_char(s, hex_digit_to_char(n % 16));
    } else {
        push_char(s, hex_digit_to_char(n));
    }
}


/// Characters that markup escaping turns into numeric character references: the control
/// characters other than tab, line feed and carriage return, and the C1 controls but U+0085.
pub open spec fn is_markup_control(c: char) -> bool {
    let v = c as u32;
    (0x1 <= v && v <= 0x8) || (0xb <= v && v <= 0xc) || (0xe <= v && v <= 0x1f) || (0x7f <= v
        && v <= 0x84) || (0x86 <= v && v <= 0x9f)
}

/// The escaped form of one character in markup.
pub open spec fn markup_escape_char(c: char) -> Seq<char> {
    if c == '&' {
        "&amp;"@
    } else if c == '<' {
        "&lt;"@
    } else if c == '>' {
        "&gt;"@
    } else if c == '\'' {
        "&apos;"@
    } else if c == '"' {
        "&quot;"@
    } else if is_markup_control(c) {
        "&#x"@ + hex_lower(c as nat) + ";"@
    } else {
        seq![c]
    }
}

/// Text escaped so that a markup parser reads it verbatim: `&`, `<`, `>`, `'` and `"`
/// become entities, and control characters become numeric character references.
pub open spec fn markup_escape(s: Seq<char>) -> Seq<char>
    decreases s.len(),
{
    if s.len() == 0 {
        seq![]
    } else {
        markup_escape(s.drop_last()) + markup_escape_char(s.last())
    }
}

/// Appends the markup-escaped form of `text` (the escaping of `g_markup_escape_text`).
pub fn push_markup_escaped(s: &mut String, text: &str)
    ensures
        final(s)@ == old(s)@ + markup_escape(text@),
{
    let ghost start = s@;
    let mut it = text.chars();
    let ghost all = text@;
    let ghost mut i: int = 0;
    loop
        invariant_except_break
            it.remaining() == all.skip(i),
            0 <= i <= all.len(),
            s@ == start + markup_escape(all.take(i)),
            all == text@,
            it.obeys_prophetic_iter_laws(),
        ensures
            s@ == start + markup_escape(all),
        decreases all.len() - i,
    {
        match it.next() {
            None => {
                assert(all.take(i) =~= all);
                break;
            },
            Some(c) => {
                assert(c == all[i]);
                assert(all.skip(i).drop_first() =~= all.skip(i + 1));
                push_escaped_char(s, c);
                assert(all.take(i + 1).drop_last() =~= all.take(i));
                proof {
                    i = i + 1;
                }
            },
        }
    }
}

fn push_escaped_char(s: &mut String, c: char)
    ensures
        final(s)@ == old(s)@ + markup_escape_char(c),
{
    if c == '&' {
        s.append("&amp;");
    } else if c == '<' {
        s.append("&lt;");
    } else if c == '>' {
        s.append("&gt;");
    } else if c == '\'' {
        s.append("&apos;");
    } else if c == '"' {
        s.append("&quot;");
    } else {
        let v = c as u32;
        if (0x1 <= v && v <= 0x8) || (0xb <= v && v <= 0xc) || (0xe <= v && v <= 0x1f) || (0x7f
            <= v && v <= 0x84) || (0x86 <= v && v <= 0x9f) {
            s.append("&#x");
            push_hex_lower(s, v);
            s.append(";");
        } else {
            push_char(s, c);
        }
    }
}

/// Appends all of `text`.
pub fn push_str(s: &mut String, text: &str)
    ensures
        final(s)@ == old(s)@ + text@,
{
    s.append(text);
}


/// The first character of a string, if it has one.
pub fn first_char(s: &str) -> (r: Option<char>)
    ensures
        s@.len() > 0 ==> r == Some(s@[0]),
        s@.len() == 0 ==> r is None,
{
    let mut it = s.chars();
    it.next()
}

/// The characters of a string.
pub fn chars_of(text: &str) -> (v: Vec<char>)
    ensures
        v@ == text@,
{
    let mut v: Vec<char> = Vec::new();
    let mut it = text.chars();
    let ghost all = text@;
    let ghost mut i: int = 0;
    loop
        invariant_except_break
            it.remaining() == all.skip(i),
            0 <= i <= all.len(),
            v@ == all.take(i),
            all == text@,
            it.obeys_prophetic_iter_laws(),
        ensures
            v@ == all,
        decreases all.len() - i,
    {
        match it.next() {
            None => {
                assert(all.take(i) =~= all);
                break;
            },
            Some(c) => {
                assert(c == all[i]);
                assert(all.skip(i).drop_first() =~= all.skip(i + 1));
                v.push(c);
                assert(all.take(i + 1) =~= all.take(i).push(c));
                proof {
                    i = i + 1;
                }
            },
        }
    }
    v
}

/// The text without its leading whitespace.
pub open spec fn trim_start(s: Seq<char>) -> Seq<char>
    decreases s.len(),
{
    if s.len() > 0 && spec_is_whitespace(s[0]) {
        trim_start(s.drop_first())
    } else {
        s
    }
}

/// The text without its trailing whitespace.
pub open spec fn trim_end(s: Seq<char>) -> Seq<char>
    decreases s.len(),
{
    if s.len() > 0 && spec_is_whitespace(s.last()) {
        trim_end(s.drop_last())
    } else {
        s
    }
}

/// The text without leading and trailing whitespace, as `str::trim` gives it.
pub open spec fn trim(s: Seq<char>) -> Seq<char> {
    trim_end(trim_start(s))
}

proof fn lemma_trim_start_skip(s: Seq<char>, k: int)
    requires
        0 <= k < s.len(),
        spec_is_whitespace(s[k]),
    ensures
        trim_start(s.skip(k)) == trim_start(s.skip(k + 1)),
{
    assert(s.skip(k).drop_first() =~= s.skip(k + 1));
}

proof fn lemma_trim_end_take(s: Seq<char>, a: int, b: int)
    requires
        0 <= a < b <= s.len(),
        spec_is_whitespace(s[b - 1]),
    ensures
        trim_end(s.subrange(a, b)) == trim_end(s.subrange(a, b - 1)),
{
    assert(s.subrange(a, b).drop_last() =~= s.subrange(a, b - 1));
}

/// The text with leading and trailing whitespace removed.
pub fn trim_whitespace(text: &str) -> (r: String)
    ensures
        r@ == trim(text@),
{
    let v = chars_of(text);
    let n = v.len();
    let mut start: usize = 0;
    assert(v@.skip(0) =~= v@);
    while start < n && is_whitespace(v[start])
        invariant
            start <= n,
            n == v@.len(),
            trim_start(v@) == trim_start(v@.skip(start as int)),
        decreases n - start,
    {
        proof {
            lemma_trim_start_skip(v@, start as int);
        }
        start = start + 1;
    }
    assert(trim_start(v@) =~= v@.subrange(start as int, n as int)) by {
        assert(v@.skip(start as int) =~= v@.subrange(start as int, n as int));
    }
    let mut end: usize = n;
    while end > start && is_whitespace(v[end - 1])
        invariant
            start <= end <= n,
            n == v@.len(),
            trim_end(v@.subrange(start as int, n as int)) == trim_end(
                v@.subrange(start as int, end as int),
            ),
        decreases end,
    {
        proof {
            lemma_trim_end_take(v@, start as int, end as int);
        }
        end = end - 1;
    }
    let mut r = String::new();
    let mut k: usize = start;
    while k < end
        invariant
            start <= k <= end <= n,
            n == v@.len(),
            r@ == v@.subrange(start as int, k as int),
        decreases end - k,
    {
        push_char(&mut r, v[k]);
        assert(r@ =~= v@.subrange(start as int, k + 1));
        k = k + 1;
    }
    assert(text@ == v@);
    r
}

} // verus!
