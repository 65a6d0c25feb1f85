//! The code playground: reading a code block, preparing the program sent
//! to the Rust or Python evaluator, and shaping what comes back.
use vstd::prelude::*;

use crate::external::{
    base64_decode, base64_decoding, base64_encode, base64_encoding, is_match, regex_is_match,
    utf8_string,
};
use crate::text::{
    byte_len, byte_len_capped, tail_pieces, append, append_str, char_views, chars_of, contains_chars, contains_text, ends_with, join,
    join_chars, matches_at, replace_all, replace_chars, slice_chars, split_chars, split_on,
    starts_with, string_of, strip_prefixes, strip_prefixes_chars, strip_suffixes,
    strip_suffixes_chars, trim, trim_chars, law_trim_ignores_whitespace, unicode_whitespace,
};

verus! {

/// The language a code block is evaluated in.
#[derive(PartialEq, Eq, Structural, Clone, Copy, Debug)]
pub enum EvalType {
    Rust,
    Python,
}

/// The code block of `text`, with the language its fence names: the text
/// is trimmed, must start with a fence naming `rust`, `rs`, `python` or
/// `py` (tried in that order) and end with a fence, and the code is what
/// is left once every leading copy of that opening fence and every
/// trailing fence are taken off.
pub open spec fn code_block(text: Seq<char>) -> Option<(Seq<char>, EvalType)> {
    let code = trim(text);
    if starts_with(code, "```rust"@) && ends_with(code, "```"@) {
        Some((strip_suffixes(strip_prefixes(code, "```rust"@), "```"@), EvalType::Rust))
    } else if starts_with(code, "```rs"@) && ends_with(code, "```"@) {
        Some((strip_suffixes(strip_prefixes(code, "```rs"@), "```"@), EvalType::Rust))
    } else if starts_with(code, "```python"@) && ends_with(code, "```"@) {
        Some((strip_suffixes(strip_prefixes(code, "```python"@), "```"@), EvalType::Python))
    } else if starts_with(code, "```py"@) && ends_with(code, "```"@) {
        Some((strip_suffixes(strip_prefixes(code, "```py"@), "```"@), EvalType::Python))
    } else {
        None
    }
}

/// Whitespace of any kind around the arguments, such as the line break
/// before a code block typed on its own line, never changes which code
/// block is read.
pub proof fn law_code_block_ignores_whitespace(t: Seq<char>, w: char)
    requires
        unicode_whitespace(w),
    ensures
        code_block(seq![w] + t) == code_block(t),
        code_block(t + seq![w]) == code_block(t),
        unicode_whitespace('\n') && unicode_whitespace('\t') && unicode_whitespace(' ')
            && unicode_whitespace('\r'),
{
    law_trim_ignores_whitespace(t, w);
}

fn fenced(code: &Vec<char>, open: &str) -> (r: Option<Vec<char>>)
    requires
        open@.len() > 0,
    ensures
        match r {
            Some(c) => starts_with(code@, open@) && ends_with(code@, "```"@) && c@ == strip_suffixes(
                strip_prefixes(code@, open@),
                "```"@,
            ),
            None => !(starts_with(code@, open@) && ends_with(code@, "```"@)),
        },
{
    let fence = chars_of("```");
    let opening = chars_of(open);
    if matches_at(code, &opening, 0) && code.len() >= 3 && matches_at(code, &fence, code.len() - 3) {
        proof {
            reveal_strlit("```");
        }
        let stripped = strip_prefixes_chars(code, &opening);
        Some(strip_suffixes_chars(&stripped, &fence))
    } else {
        proof {
            reveal_strlit("```");
        }
        None
    }
}

/// The `playground` command's reading of its arguments: the code and its
/// language, or `None` when they are not a code block it knows.
pub fn playground(text: &str) -> (r: Option<(String, EvalType)>)
    ensures
        match r {
            Some((code, kind)) => code_block(text@) == Some((code@, kind)),
            None => code_block(text@) is None,
        },
{
    proof {
        reveal_strlit("```rust");
        reveal_strlit("```rs");
        reveal_strlit("```python");
        reveal_strlit("```py");
    }
    let all = chars_of(text);
    let code = trim_chars(&all);
    if let Some(c) = fenced(&code, "```rust") {
        return Some((string_of(&c), EvalType::Rust));
    }
    if let Some(c) = fenced(&code, "```rs") {
        return Some((string_of(&c), EvalType::Rust));
    }
    if let Some(c) = fenced(&code, "```python") {
        return Some((string_of(&c), EvalType::Python));
    }
    if let Some(c) = fenced(&code, "```py") {
        return Some((string_of(&c), EvalType::Python));
    }
    None
}

/// What the channel is told when the arguments are not a code block.
pub fn invalid_code_block() -> (r: &'static str)
    ensures
        r@ == "Invalid codeblock, try formatting your code as follows:\n\\`\\`\\`<language>\n<code>\n\\`\\`\\`"@,
{
    "Invalid codeblock, try formatting your code as follows:\n\\`\\`\\`<language>\n<code>\n\\`\\`\\`"
}

/// The languages the playground takes, as the `lang` command lists them.
pub fn lang() -> (r: &'static str)
    ensures
        r@ == "Languages:\n    Rust: `rust`, `rs`\n    Python: `python`, `py`\n    "@,
{
    "Languages:\n    Rust: `rust`, `rs`\n    Python: `python`, `py`\n    "
}

/// How the output of an evaluation reaches the channel.
#[derive(Debug)]
pub enum Delivery {
    /// Sent as this message.
    Inline(String),
    /// Too long for a message: uploaded, and the link sent.
    Paste,
    /// Too long even for that.
    TooBig,
}

/// How `output` is delivered: an empty code block when there is none;
/// under 1990 bytes, a code block with every three backticks inside
/// spread out; up to 5000 bytes, a paste; beyond that, not at all.
pub open spec fn delivery_of(output: Seq<char>) -> Option<Seq<char>> {
    if output.len() == 0 {
        Some("``` ```"@)
    } else if byte_len(output) < 1990 {
        Some("```\n"@ + replace_all(output, "```"@, " ` ` `"@) + "\n```"@)
    } else {
        None
    }
}

/// Whether `output` is short enough for a paste.
pub open spec fn pasteable(output: Seq<char>) -> bool {
    byte_len(output) <= 5000
}

/// Decides how `output` reaches the channel.
pub fn deliver(output: &str) -> (r: Delivery)
    ensures
        match r {
            Delivery::Inline(m) => delivery_of(output@) == Some(m@),
            Delivery::Paste => delivery_of(output@) is None && pasteable(output@),
            Delivery::TooBig => delivery_of(output@) is None && !pasteable(output@),
        },
{
    let chars = chars_of(output);
    let n = byte_len_capped(&chars, 5001);
    if output.is_empty() {
        Delivery::Inline(String::from_str("``` ```"))
    } else if n < 1990 {
        let fence = chars_of("```");
        let spread = chars_of(" ` ` `");
        proof {
            reveal_strlit("```");
        }
        let inner = replace_chars(&chars, &fence, &spread);
        let mut out = chars_of("```\n");
        append(&mut out, &inner);
        append_str(&mut out, "\n```");
        Delivery::Inline(string_of(&out))
    } else if n <= 5000 {
        Delivery::Paste
    } else {
        Delivery::TooBig
    }
}

/// What the channel is told when the output is too long.
pub fn too_big() -> (r: &'static str)
    ensures
        r@ == "Output too big!"@,
{
    "Output too big!"
}

/// How the output of a Python evaluation reaches the channel.
pub fn eval_python(output: &str) -> (r: Delivery)
    ensures
        match r {
            Delivery::Inline(m) => delivery_of(output@) == Some(m@),
            Delivery::Paste => delivery_of(output@) is None && pasteable(output@),
            Delivery::TooBig => delivery_of(output@) is None && !pasteable(output@),
        },
{
    deliver(output)
}

/// The body of the request to the Python evaluator: the code's UTF-8
/// bytes in Base64.
pub fn python_request(code: &str) -> (r: String)
    ensures
        r@ == base64_encoding(vstd::utf8::encode_utf8(code@)),
{
    base64_encode(code)
}

/// What the channel is told when the Python evaluator's answer cannot be
/// read.
pub open spec fn invalid_response_text() -> Seq<char> {
    "The server returned an invalid response, please try again later"@
}

/// Reads the Python evaluator's answer: Base64 text of UTF-8 bytes.
pub fn python_response(text: &str) -> (r: Result<String, &'static str>)
    ensures
        match r {
            Ok(s) => base64_decoding(text@) matches Some(b) && vstd::utf8::valid_utf8(b) && s@
                == vstd::utf8::decode_utf8(b),
            Err(e) => e@ == invalid_response_text() && (base64_decoding(text@) matches Some(b)
                ==> !vstd::utf8::valid_utf8(b)),
        },
{
    match base64_decode(text) {
        Some(bytes) => match utf8_string(bytes) {
            Some(s) => Ok(s),
            None => Err("The server returned an invalid response, please try again later"),
        },
        None => Err("The server returned an invalid response, please try again later"),
    }
}

/// The channel the playground builds with.
#[derive(PartialEq, Eq, Structural, Clone, Copy, Debug)]
pub enum Channel {
    Stable,
    Beta,
    Nightly,
}

/// The mode the playground builds in.
#[derive(PartialEq, Eq, Structural, Clone, Copy, Debug)]
pub enum Mode {
    Debug,
    Release,
}

/// The edition the playground builds for.
#[derive(PartialEq, Eq, Structural, Clone, Copy, Debug)]
pub enum Edition {
    _2015,
    _2018,
}

/// What the playground builds.
#[derive(PartialEq, Eq, Structural, Clone, Copy, Debug)]
pub enum CrateType {
    Bin,
    Lib,
}

impl Channel {
    /// How the playground names the channel.
    pub fn name(&self) -> (r: &'static str)
        ensures
            r@ == (match *self {
                Channel::Stable => "stable"@,
                Channel::Beta => "beta"@,
                Channel::Nightly => "nightly"@,
            }),
    {
        match self {
            Channel::Stable => "stable",
            Channel::Beta => "beta",
            Channel::Nightly => "nightly",
        }
    }
}

impl Mode {
    /// How the playground names the mode.
    pub fn name(&self) -> (r: &'static str)
        ensures
            r@ == (match *self {
                Mode::Debug => "debug"@,
                Mode::Release => "release"@,
            }),
    {
        match self {
            Mode::Debug => "debug",
            Mode::Release => "release",
        }
    }
}

impl Edition {
    /// How the playground names the edition.
    pub fn name(&self) -> (r: &'static str)
        ensures
            r@ == (match *self {
                Edition::_2015 => "2015"@,
                Edition::_2018 => "2018"@,
            }),
    {
        match self {
            Edition::_2015 => "2015",
            Edition::_2018 => "2018",
        }
    }
}

impl CrateType {
    /// How the playground names the crate type.
    pub fn name(&self) -> (r: &'static str)
        ensures
            r@ == (match *self {
                CrateType::Bin => "bin"@,
                CrateType::Lib => "lib"@,
            }),
    {
        match self {
            CrateType::Bin => "bin",
            CrateType::Lib => "lib",
        }
    }
}

/// A request to the Rust playground.
pub struct RustRequest {
    pub backtrace: bool,
    pub channel: Channel,
    pub code: String,
    pub crate_type: CrateType,
    pub edition: Edition,
    pub mode: Mode,
    pub tests: bool,
}

/// The pattern that finds a `main` function in submitted code.
pub const MAIN_PATTERN: &'static str = "fn\\s*main\\s*\\(\\s*\\)";

/// The pattern that finds a compiler error in the playground's output.
pub const ERROR_PATTERN: &'static str = "(error(\\[.*\\])*:)|(error:)";

/// The program run for `code`: the code itself when it has a `main`
/// function, otherwise the code as an expression whose value a `main`
/// prints.
pub open spec fn program_text(code: Seq<char>, has_main: bool) -> Seq<char> {
    if has_main {
        code
    } else {
        "fn main() -> Result<(), Box<dyn std::any::Any>> {\n    println!(\"{:?}\", {\n        "@ + code
            + "\n    });\n    Ok(())\n}"@
    }
}

/// The request `eval_rust` sends for `code`: a stable debug build of a
/// 2018 binary, without tests or backtrace. `None` when the pattern that
/// finds `main` does not compile.
pub fn eval_rust(code: &str) -> (r: Option<RustRequest>)
    ensures
        match r {
            Some(req) => regex_is_match(MAIN_PATTERN@, code@) matches Some(m) && req.code@
                == program_text(code@, m) && req.channel == Channel::Stable && req.mode == Mode::Debug
                && req.edition == Edition::_2018 && req.crate_type == CrateType::Bin && !req.tests
                && !req.backtrace,
            None => regex_is_match(MAIN_PATTERN@, code@) is None,
        },
{
    match is_match(MAIN_PATTERN, code) {
        Some(has_main) => Some(rust_request(code, has_main)),
        None => None,
    }
}

/// The request sent for `code`, given whether it has a `main` function: a
/// stable debug build of a 2018 binary, without tests or backtrace.
pub fn rust_request(code: &str, has_main: bool) -> (req: RustRequest)
    ensures
        req.code@ == program_text(code@, has_main),
        req.channel == Channel::Stable,
        req.mode == Mode::Debug,
        req.edition == Edition::_2018,
        req.crate_type == CrateType::Bin,
        !req.tests,
        !req.backtrace,
{
    let program = if has_main {
        String::from_str(code)
    } else {
        let mut out = chars_of(
            "fn main() -> Result<(), Box<dyn std::any::Any>> {\n    println!(\"{:?}\", {\n        ",
        );
        append_str(&mut out, code);
        append_str(&mut out, "\n    });\n    Ok(())\n}");
        string_of(&out)
    };
    RustRequest {
        backtrace: false,
        channel: Channel::Stable,
        code: program,
        crate_type: CrateType::Bin,
        edition: Edition::_2018,
        mode: Mode::Debug,
        tests: false,
    }
}

/// What the channel gets from the playground's answer: the standard output
/// alone when the build succeeded, its error output shows no compiler
/// error, holds at least four bytes and no panic; otherwise the error
/// output without its first line, a blank line, and the standard output.
pub open spec fn rust_output(success: bool, stdout: Seq<char>, stderr: Seq<char>, has_error: bool) -> Seq<
    char,
> {
    if !has_error && success && (byte_len(stderr) >= 4 && !contains_text(stderr, "panicked"@)) {
        stdout
    } else {
        join(split_on(stderr, '\n').drop_first(), "\n"@) + "\n\n"@ + stdout
    }
}

/// Shapes the playground's answer: the text and how it is delivered, or
/// `None` when the error pattern does not compile.
pub fn parse_rust(success: bool, stdout: &str, stderr: &str) -> (r: Option<(String, Delivery)>)
    ensures
        match r {
            Some((out, d)) => regex_is_match(ERROR_PATTERN@, stderr@) matches Some(e) && out@
                == rust_output(success, stdout@, stderr@, e) && match d {
                Delivery::Inline(m) => delivery_of(out@) == Some(m@),
                Delivery::Paste => delivery_of(out@) is None && pasteable(out@),
                Delivery::TooBig => delivery_of(out@) is None && !pasteable(out@),
            },
            None => regex_is_match(ERROR_PATTERN@, stderr@) is None,
        },
{
    match is_match(ERROR_PATTERN, stderr) {
        Some(has_error) => Some(shape_rust(success, stdout, stderr, has_error)),
        None => None,
    }
}

/// The text the channel gets from the playground's answer, given whether
/// its error output shows a compiler error, and how it is delivered.
pub fn shape_rust(success: bool, stdout: &str, stderr: &str, has_error: bool) -> (r: (String, Delivery))
    ensures
        r.0@ == rust_output(success, stdout@, stderr@, has_error),
        match r.1 {
            Delivery::Inline(m) => delivery_of(r.0@) == Some(m@),
            Delivery::Paste => delivery_of(r.0@) is None && pasteable(r.0@),
            Delivery::TooBig => delivery_of(r.0@) is None && !pasteable(r.0@),
        },
{
    let err = chars_of(stderr);
    let panicked = chars_of("panicked");
    let clean = !has_error && success && (byte_len_capped(&err, 4) >= 4 && !contains_chars(
        &err,
        &panicked,
    ));
    let output = if clean {
        String::from_str(stdout)
    } else {
        let lines = split_chars(&err, '\n');
        let rest = tail_pieces(&lines);
        let mut out = join_chars(&rest, "\n");
        append_str(&mut out, "\n\n");
        append_str(&mut out, stdout);
        string_of(&out)
    };
    let d = deliver(output.as_str());
    (output, d)
}

/// The link to a paste on hastebin from its key.
pub fn get_hastebin(key: &str) -> (r: String)
    ensures
        r@ == "https://hastebin.com/"@ + key@,
{
    let mut out = chars_of("https://hastebin.com/");
    append_str(&mut out, key);
    string_of(&out)
}

/// The link to the playground holding the gist `id` of `request`.
pub fn get_gist(request: &RustRequest, id: &str) -> (r: String)
    ensures
        r@ == "https://play.rust-lang.org/?version="@ + (match request.channel {
            Channel::Stable => "stable"@,
            Channel::Beta => "beta"@,
            Channel::Nightly => "nightly"@,
        }) + "&mode="@ + (match request.mode {
            Mode::Debug => "debug"@,
            Mode::Release => "release"@,
        }) + "&edition="@ + (match request.edition {
            Edition::_2015 => "2015"@,
            Edition::_2018 => "2018"@,
        }) + "&gist="@ + id@,
{
    let mut out = chars_of("https://play.rust-lang.org/?version=");
    append_str(&mut out, request.channel.name());
    append_str(&mut out, "&mode=");
    append_str(&mut out, request.mode.name());
    append_str(&mut out, "&edition=");
    append_str(&mut out, request.edition.name());
    append_str(&mut out, "&gist=");
    append_str(&mut out, id);
    string_of(&out)
}

} // verus!
