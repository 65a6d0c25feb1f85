//! The calls into other crates that the bot's logic makes, each with the
//! contract the rest of the library relies on. None of these contracts is
//! proved here: each doc comment says what is claimed of the crate.
use vstd::prelude::*;

use crate::text::{ascii_lowercase, ascii_text, replace_all};

verus! {

/// The matches of `pattern` in `text`, each as the text it covers, in the
/// order `regex::Regex::find_iter` yields them (leftmost first, never
/// overlapping); `None` when `pattern` is not a valid regular expression.
pub uninterp spec fn regex_find_iter(pattern: Seq<char>, text: Seq<char>) -> Option<Seq<Seq<char>>>;

/// Whether `pattern` matches somewhere in `text`, as
/// `regex::Regex::is_match` reports it; `None` when `pattern` is not a valid
/// regular expression.
pub uninterp spec fn regex_is_match(pattern: Seq<char>, text: Seq<char>) -> Option<bool>;

/// Compiles `pattern` with `regex::Regex::new` and collects the text of
/// every match that `regex::Regex::find_iter` yields on `text`. Claimed:
/// the result is a function of the two strings alone, named
/// `regex_find_iter`; nothing is claimed of what the matches are.
#[verifier::external_body]
pub(crate) fn find_matches(pattern: &str, text: &str) -> (r: Option<Vec<String>>)
    ensures
        match r {
            Some(v) => regex_find_iter(pattern@, text@) == Some(v@.map_values(|m: String| m@)),
            None => regex_find_iter(pattern@, text@) is None,
        },
{
    match regex::Regex::new(pattern) {
        Ok(re) => Some(re.find_iter(text).map(|m| m.as_str().to_string()).collect()),
        Err(_) => None,
    }
}

/// Compiles `pattern` with `regex::Regex::new` and asks
/// `regex::Regex::is_match` about `text`. Claimed: the result is a function
/// of the two strings alone, named `regex_is_match`.
#[verifier::external_body]
pub(crate) fn is_match(pattern: &str, text: &str) -> (r: Option<bool>)
    ensures
        r == regex_is_match(pattern@, text@),
{
    match regex::Regex::new(pattern) {
        Ok(re) => Some(re.is_match(text)),
        Err(_) => None,
    }
}

/// `text` as `MessageBuilder` normalises it: invite and listing hosts get
/// a one-dot leader for their dot, right-to-left and zero-width marks turn
/// into spaces, and `@everyone` and `@here` get a zero-width space after
/// the `@`, in that order.
pub open spec fn normalized(text: Seq<char>) -> Seq<char> {
    let t = replace_all(text, "discord.gg"@, "discord\u{2024}gg"@);
    let t = replace_all(t, "discord.me"@, "discord\u{2024}me"@);
    let t = replace_all(t, "discordlist.net"@, "discordlist\u{2024}net"@);
    let t = replace_all(t, "discordservers.com"@, "discordservers\u{2024}com"@);
    let t = replace_all(t, "discord.com/invite"@, "discord\u{2024}com/invite"@);
    let t = replace_all(t, "discordapp.com/invite"@, "discordapp\u{2024}com/invite"@);
    let t = replace_all(t, seq!['\u{202E}'], " "@);
    let t = replace_all(t, seq!['\u{200F}'], " "@);
    let t = replace_all(t, seq!['\u{202B}'], " "@);
    let t = replace_all(t, seq!['\u{200B}'], " "@);
    let t = replace_all(t, seq!['\u{200D}'], " "@);
    let t = replace_all(t, seq!['\u{200C}'], " "@);
    let t = replace_all(t, "@everyone"@, "@\u{200B}everyone"@);
    replace_all(t, "@here"@, "@\u{200B}here"@)
}

/// What `MessageBuilder::push_safe` appends for `text`: the normalised
/// text with `*`, `` ` `` and `_` escaped by a backslash.
pub open spec fn safe_text(text: Seq<char>) -> Seq<char> {
    let t = replace_all(normalized(text), seq!['*'], "\\*"@);
    let t = replace_all(t, seq!['`'], "\\`"@);
    replace_all(t, seq!['_'], "\\_"@)
}

/// What `MessageBuilder::push_mono_line_safe` appends for `text`: the
/// normalised text with backticks turned into `'`, between backticks, and
/// a newline.
pub open spec fn mono_line_safe(text: Seq<char>) -> Seq<char> {
    seq!['`'] + replace_all(normalized(text), seq!['`'], seq!['\'']) + seq!['`', '\n']
}

/// Runs `MessageBuilder::push_safe` on `text` in an empty builder. Claimed,
/// as the crate's source shows: the result is `safe_text` of `text`.
#[verifier::external_body]
pub(crate) fn push_safe(text: &str) -> (r: String)
    ensures
        r@ == safe_text(text@),
{
    serenity::utils::MessageBuilder::new().push_safe(text).build()
}

/// Runs `MessageBuilder::push_mono_line_safe` on `text` in an empty
/// builder. Claimed, as the crate's source shows: the result is
/// `mono_line_safe` of `text`.
#[verifier::external_body]
pub(crate) fn push_mono_line_safe(text: &str) -> (r: String)
    ensures
        r@ == mono_line_safe(text@),
{
    serenity::utils::MessageBuilder::new().push_mono_line_safe(text).build()
}

/// What `str::to_lowercase` gives for `s`: each character mapped to its
/// Unicode lowercase form.
pub uninterp spec fn lowercase(s: Seq<char>) -> Seq<char>;

/// `str::to_lowercase`. Claimed: the result depends on `s` alone, named
/// `lowercase`; and, as its documentation says (lowercase as Unicode
/// defines it, whose mapping of ASCII letters is `A`-`Z` to `a`-`z`), an
/// ASCII text comes out in ASCII lowercase.
#[verifier::external_body]
pub(crate) fn to_lowercase(s: &str) -> (r: String)
    ensures
        r@ == lowercase(s@),
        ascii_text(s@) ==> r@ == ascii_lowercase(s@),
{
    s.to_lowercase()
}

/// `String::from_utf8`. Claimed, as its documentation says: the bytes are
/// accepted exactly when they are valid UTF-8, and then the string holds
/// the characters they encode.
#[verifier::external_body]
pub(crate) fn utf8_string(bytes: Vec<u8>) -> (r: Option<String>)
    ensures
        r is Some <==> vstd::utf8::valid_utf8(bytes@),
        r matches Some(s) ==> s@ == vstd::utf8::decode_utf8(bytes@),
{
    String::from_utf8(bytes).ok()
}

/// What `inflector::cases::titlecase::to_title_case` gives for `s`.
pub uninterp spec fn title_case(s: Seq<char>) -> Seq<char>;

/// `inflector::cases::titlecase::to_title_case`. Claimed: the result
/// depends on `s` alone, named `title_case`.
#[verifier::external_body]
pub(crate) fn to_title_case(s: &str) -> (r: String)
    ensures
        r@ == title_case(s@),
{
    inflector::cases::titlecase::to_title_case(s)
}

/// The character of the standard Base64 alphabet for the six bits `i`:
/// `A`-`Z`, `a`-`z`, `0`-`9`, `+` and `/`.
pub open spec fn base64_char(i: int) -> char {
    if i < 26 {
        (65 + i) as char
    } else if i < 52 {
        (97 + i - 26) as char
    } else if i < 62 {
        (48 + i - 52) as char
    } else if i == 62 {
        '+'
    } else {
        '/'
    }
}

/// The standard Base64 text for `bytes`: each three bytes give four
/// characters of six bits each, and a last one or two bytes are padded
/// with `=` to four characters.
pub open spec fn base64_encoding(bytes: Seq<u8>) -> Seq<char>
    decreases bytes.len(),
{
    if bytes.len() == 0 {
        Seq::empty()
    } else if bytes.len() == 1 {
        let a = bytes[0] as int;
        seq![base64_char(a / 4), base64_char((a % 4) * 16), '=', '=']
    } else if bytes.len() == 2 {
        let a = bytes[0] as int;
        let b = bytes[1] as int;
        seq![base64_char(a / 4), base64_char((a % 4) * 16 + b / 16), base64_char((b % 16) * 4), '=']
    } else {
        let a = bytes[0] as int;
        let b = bytes[1] as int;
        let d = bytes[2] as int;
        seq![
            base64_char(a / 4),
            base64_char((a % 4) * 16 + b / 16),
            base64_char((b % 16) * 4 + d / 64),
            base64_char(d % 64),
        ] + base64_encoding(bytes.skip(3))
    }
}

/// The bytes that `base64::decode` gives for the text `s`, or `None` when
/// it rejects the text.
pub uninterp spec fn base64_decoding(s: Seq<char>) -> Option<Seq<u8>>;

/// `base64::encode` of the UTF-8 bytes of `s`. Claimed, as the crate's
/// documentation and source show: the standard alphabet with padding,
/// `base64_encoding`.
#[verifier::external_body]
pub(crate) fn base64_encode(s: &str) -> (r: String)
    ensures
        r@ == base64_encoding(vstd::utf8::encode_utf8(s@)),
{
    base64::encode(s)
}

/// `base64::decode` of the text `s`, with its error dropped. Claimed: the
/// result depends on `s` alone, named `base64_decoding`.
#[verifier::external_body]
pub(crate) fn base64_decode(s: &str) -> (r: Option<Vec<u8>>)
    ensures
        match r {
            Some(b) => base64_decoding(s@) == Some(b@),
            None => base64_decoding(s@) is None,
        },
{
    base64::decode(s).ok()
}

} // verus!
