//! The OCR request to the vision model and the reading of its answer: the
//! JSON body of a chat-completion request carrying the prompt and the
//! image as a Base64 data URL, and the content of the first choice of the
//! response.
use vstd::prelude::*;
use crate::error::{err, PvError};
use crate::text::{dec, trim};
use crate::textops::{append_chars, dec_chars, from_chars, push_str, to_chars, trim_chars};

verus! {

broadcast use vstd::string::group_string_axioms;

/// The character of the 6-bit value `v` in the standard Base64 alphabet:
/// `A`-`Z`, `a`-`z`, `0`-`9`, `+`, `/`.
pub open spec fn base64_char(v: int) -> char {
    if v < 26 {
        (('A' as int) + v) as char
    } else if v < 52 {
        (('a' as int) + v - 26) as char
    } else if v < 62 {
        (('0' as int) + v - 52) as char
    } else if v == 62 {
        '+'
    } else {
        '/'
    }
}

/// The standard Base64 text of `b`, padded with `=`: each group of three
/// bytes becomes four characters of six bits each; a last group of one or
/// two bytes becomes two or three characters and the padding.
pub open spec fn base64_text(b: Seq<u8>) -> Seq<char>
    decreases b.len(),
{
    if b.len() == 0 {
        Seq::empty()
    } else if b.len() == 1 {
        let x = b[0] as int;
        seq![base64_char(x / 4), base64_char((x % 4) * 16), '=', '=']
    } else if b.len() == 2 {
        let x = b[0] as int;
        let y = b[1] as int;
        seq![base64_char(x / 4), base64_char((x % 4) * 16 + y / 16), base64_char((y % 16) * 4), '=']
    } else {
        let x = b[0] as int;
        let y = b[1] as int;
        let z = b[2] as int;
        seq![
            base64_char(x / 4),
            base64_char((x % 4) * 16 + y / 16),
            base64_char((y % 16) * 4 + z / 64),
            base64_char(z % 64),
        ] + base64_text(b.skip(3))
    }
}

/// `base64::engine::general_purpose::STANDARD.encode(bytes)`: the standard
/// Base64 text of the bytes, padded, as `base64_text` states it.
#[verifier::external_body]
fn base64_encode(bytes: &Vec<u8>) -> (r: String)
    ensures
        r@ == base64_text(bytes@),
{
    base64::Engine::encode(&base64::engine::general_purpose::STANDARD, bytes)
}

/// A lower-case hexadecimal digit.
pub open spec fn hex_digit_char(d: int) -> char {
    if d < 10 {
        crate::text::digit_char(d as nat)
    } else if d == 10 {
        'a'
    } else if d == 11 {
        'b'
    } else if d == 12 {
        'c'
    } else if d == 13 {
        'd'
    } else if d == 14 {
        'e'
    } else {
        'f'
    }
}

/// How serde_json writes the character `c` inside a JSON string: `"` and
/// `\` after a backslash; backspace, tab, line feed, form feed and
/// carriage return as `\b`, `\t`, `\n`, `\f`, `\r`; other control
/// characters below 0x20 as `\u00` and two lower-case hexadecimal digits;
/// every other character as itself.
pub open spec fn json_escaped_char(c: char) -> Seq<char> {
    if c == '"' {
        seq!['\\', '"']
    } else if c == '\\' {
        seq!['\\', '\\']
    } else if c == '\x08' {
        seq!['\\', 'b']
    } else if c == '\t' {
        seq!['\\', 't']
    } else if c == '\n' {
        seq!['\\', 'n']
    } else if c == '\x0c' {
        seq!['\\', 'f']
    } else if c == '\r' {
        seq!['\\', 'r']
    } else if (c as int) < 0x20 {
        seq!['\\', 'u', '0', '0', hex_digit_char((c as int) / 16), hex_digit_char((c as int) % 16)]
    } else {
        seq![c]
    }
}

/// The characters of `s`, each escaped as serde_json escapes it.
pub open spec fn json_escaped(s: Seq<char>) -> Seq<char>
    decreases s.len(),
{
    if s.len() == 0 {
        Seq::empty()
    } else {
        json_escaped(s.drop_last()) + json_escaped_char(s.last())
    }
}

/// The JSON string holding `s`, as serde_json writes it: `s` escaped and
/// in double quotes.
pub open spec fn json_quoted(s: Seq<char>) -> Seq<char> {
    seq!['"'] + json_escaped(s) + seq!['"']
}

/// `serde_json::Value::String(s).to_string()`: `s` quoted and escaped, as
/// `json_quoted` states it.
#[verifier::external_body]
fn json_string(s: &str) -> (r: String)
    ensures
        r@ == json_quoted(s@),
{
    serde_json::Value::String(s.to_owned()).to_string()
}

/// The data URL of a PNG image.
pub open spec fn image_data_url(png: Seq<u8>) -> Seq<char> {
    "data:image/png;base64,"@ + base64_text(png)
}

/// The JSON text of the chat-completion request for `model` carrying one
/// user message of the `prompt` and the image at `url`, with temperature
/// 0, at most `max_tokens` tokens, the deepseek reasoning format and
/// thinking disabled; keys in sorted order and no spaces, as serde_json
/// writes an object.
pub open spec fn request_json(model: Seq<char>, prompt: Seq<char>, url: Seq<char>, max_tokens: u32) -> Seq<char> {
    "{\"chat_template_kwargs\":{\"enable_thinking\":false},\"max_tokens\":"@ + dec(max_tokens as nat)
        + ",\"messages\":[{\"content\":[{\"text\":"@ + json_quoted(prompt)
        + ",\"type\":\"text\"},{\"image_url\":{\"url\":"@ + json_quoted(url)
        + "},\"type\":\"image_url\"}],\"role\":\"user\"}],\"model\":"@ + json_quoted(model)
        + ",\"reasoning_format\":\"deepseek\",\"temperature\":0}"@
}

/// The body of the OCR request: the prompt and the PNG image `png` for
/// `model`, answering in at most `max_tokens` tokens.
pub fn ocr_request_body(model: &str, prompt: &str, png: &Vec<u8>, max_tokens: u32) -> (r: String)
    ensures
        r@ == request_json(model@, prompt@, image_data_url(png@), max_tokens),
{
    let encoded = base64_encode(png);
    let mut url = to_chars("data:image/png;base64,");
    push_str(&mut url, encoded.as_str());
    let url_text = from_chars(&url);
    let mut m = to_chars("{\"chat_template_kwargs\":{\"enable_thinking\":false},\"max_tokens\":");
    let d = dec_chars(max_tokens as u64);
    append_chars(&mut m, &d);
    push_str(&mut m, ",\"messages\":[{\"content\":[{\"text\":");
    let p = json_string(prompt);
    push_str(&mut m, p.as_str());
    push_str(&mut m, ",\"type\":\"text\"},{\"image_url\":{\"url\":");
    let u = json_string(url_text.as_str());
    push_str(&mut m, u.as_str());
    push_str(&mut m, "},\"type\":\"image_url\"}],\"role\":\"user\"}],\"model\":");
    let mo = json_string(model);
    push_str(&mut m, mo.as_str());
    push_str(&mut m, ",\"reasoning_format\":\"deepseek\",\"temperature\":0}");
    from_chars(&m)
}

/// What serde_json reads of a message in the JSON text `text`: the
/// message of its parse error when the text is not JSON; otherwise, when
/// the value at the JSON pointer `pointer` exists, the texts of its fields
/// `content_key` and `reasoning_key`, each when present and a JSON string.
pub uninterp spec fn json_message_texts(
    text: Seq<char>,
    pointer: Seq<char>,
    content_key: Seq<char>,
    reasoning_key: Seq<char>,
) -> Result<Option<(Option<Seq<char>>, Option<Seq<char>>)>, Seq<char>>;

/// The text of an optional string.
pub open spec fn opt_string(o: Option<String>) -> Option<Seq<char>> {
    match o {
        Some(s) => Some(s@),
        None => None,
    }
}

/// What reading a message gave, as texts.
pub open spec fn message_read_view(r: Result<Option<(Option<String>, Option<String>)>, String>) -> Result<
    Option<(Option<Seq<char>>, Option<Seq<char>>)>,
    Seq<char>,
> {
    match r {
        Err(e) => Err(e@),
        Ok(None) => Ok(None),
        Ok(Some((c, t))) => Ok(Some((opt_string(c), opt_string(t)))),
    }
}

/// `serde_json::from_str::<Value>(text)`, then `Value::pointer(pointer)`,
/// then `Value::get` of the two keys and `Value::as_str`: the result is
/// the name `json_message_texts` of the arguments, the parse error given
/// by its `to_string`.
#[verifier::external_body]
fn read_json_message(text: &str, pointer: &str, content_key: &str, reasoning_key: &str) -> (r: Result<
    Option<(Option<String>, Option<String>)>,
    String,
>)
    ensures
        message_read_view(r) == json_message_texts(text@, pointer@, content_key@, reasoning_key@),
{
    match serde_json::from_str::<serde_json::Value>(text) {
        Err(e) => Err(e.to_string()),
        Ok(v) => match v.pointer(pointer) {
            None => Ok(None),
            Some(m) => Ok(Some((
                m.get(content_key).and_then(serde_json::Value::as_str).map(str::to_owned),
                m.get(reasoning_key).and_then(serde_json::Value::as_str).map(str::to_owned),
            ))),
        },
    }
}

/// What the answer of the model gives, from what reading its JSON gave:
/// the parse error, the error that the first choice has no message, or
/// what `message_outcome` makes of the message's content and reasoning.
pub open spec fn answer_outcome(read: Result<Option<(Option<Seq<char>>, Option<Seq<char>>)>, Seq<char>>) -> Result<
    Seq<char>,
    Seq<char>,
> {
    match read {
        Err(e) => Err(e),
        Ok(None) => Err("LLM response did not contain choices[0].message"@),
        Ok(Some((c, t))) => message_outcome(c, t),
    }
}

/// What the answer of the model gives, from the `content` and
/// `reasoning_content` texts of the first choice's message: the trimmed
/// content and a line break, or why there is none.
pub open spec fn message_outcome(content: Option<Seq<char>>, reasoning: Option<Seq<char>>) -> Result<
    Seq<char>,
    Seq<char>,
> {
    match content {
        None => Err("LLM response did not contain choices[0].message.content"@),
        Some(c) => if trim(c).len() == 0 {
            if reasoning matches Some(r) && trim(r).len() > 0 {
                Err("LLM returned reasoning content but no final content"@)
            } else {
                Err("LLM returned empty content"@)
            }
        } else {
            Ok(trim(c) + "\n"@)
        },
    }
}

/// The text of an optional string.
pub open spec fn opt_text(o: Option<&str>) -> Option<Seq<char>> {
    match o {
        Some(s) => Some(s@),
        None => None,
    }
}

/// The Markdown the model answered, from the `content` and
/// `reasoning_content` texts of its first choice's message: the trimmed
/// content and a line break; an error when the content is missing or
/// blank, saying whether the model reasoned without concluding.
pub fn llm_message_content(content: Option<&str>, reasoning: Option<&str>) -> (r: Result<
    String,
    PvError,
>)
    ensures
        match message_outcome(opt_text(content), opt_text(reasoning)) {
            Ok(s) => r is Ok && r->Ok_0@ == s,
            Err(e) => r is Err && r->Err_0.message@ == e,
        },
{
    let c = match content {
        Some(c) => c,
        None => {
            return err("LLM response did not contain choices[0].message.content");
        },
    };
    let cv = to_chars(c);
    let trimmed = trim_chars(&cv);
    if trimmed.len() == 0 {
        let reasoned = match reasoning {
            Some(r) => {
                let rv = to_chars(r);
                trim_chars(&rv).len() > 0
            },
            None => false,
        };
        if reasoned {
            return err("LLM returned reasoning content but no final content");
        }
        return err("LLM returned empty content");
    }
    let mut m = trimmed;
    push_str(&mut m, "\n");
    Ok(from_chars(&m))
}

/// The Markdown the model answered, from what reading the JSON of its
/// answer gave (`read`): as `answer_outcome` states it.
pub fn llm_answer_content(read: &Result<Option<(Option<String>, Option<String>)>, String>) -> (r: Result<
    String,
    PvError,
>)
    ensures
        match answer_outcome(message_read_view(*read)) {
            Ok(s) => r is Ok && r->Ok_0@ == s,
            Err(e) => r is Err && r->Err_0.message@ == e,
        },
{
    match read {
        Err(e) => Err(PvError { message: e.clone() }),
        Ok(None) => err("LLM response did not contain choices[0].message"),
        Ok(Some((c, t))) => {
            let content = match c {
                Some(x) => Some(x.as_str()),
                None => None,
            };
            let reasoning = match t {
                Some(x) => Some(x.as_str()),
                None => None,
            };
            llm_message_content(content, reasoning)
        },
    }
}

/// The Markdown in the chat-completion response text `response`: the
/// content of the message of its first choice, trimmed and ended by a line
/// break; an error when the text is not JSON (serde_json's message), has
/// no such message, or the content is missing or blank.
pub fn llm_response_content(response: &str) -> (r: Result<String, PvError>)
    ensures
        match answer_outcome(
            json_message_texts(
                response@,
                "/choices/0/message"@,
                "content"@,
                "reasoning_content"@,
            ),
        ) {
            Ok(s) => r is Ok && r->Ok_0@ == s,
            Err(e) => r is Err && r->Err_0.message@ == e,
        },
{
    let read = read_json_message(response, "/choices/0/message", "content", "reasoning_content");
    llm_answer_content(&read)
}

} // verus!
