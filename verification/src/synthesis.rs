use vstd::prelude::*;

verus! {

/// The endpoint that synthesizes speech from text.
pub const SYNTHESIS_URL: &'static str = "https://api.tinkoff.ai:443/v1/tts:synthesize";

/// The field of a synthesis response that holds the audio, in base64.
pub const AUDIO_FIELD: &'static str = "audio_content";

#[verifier::external_type_specification]
#[verifier::external_body]
pub struct ExJsonError(serde_json::Error);

#[verifier::external_type_specification]
#[verifier::external_body]
pub struct ExDecodeError(base64::DecodeError);

/// The lower-case hexadecimal digit of `d`, for `0 <= d < 16`.
pub open spec fn hex_digit(d: int) -> char {
    if d < 10 {
        (('0' as int) + d) as char
    } else {
        (('a' as int) + d - 10) as char
    }
}

/// How `serde_json` writes the character `c` inside a JSON string: `"` and
/// `\` after a backslash; backspace, tab, line feed, form feed and carriage
/// return as `\b \t \n \f \r`; the other characters below U+0020 as
/// `\u00` and two lower-case hex digits; every other character as it is.
pub open spec fn json_escape_char(c: char) -> Seq<char> {
    if c == '"' {
        seq!['\\', '"']
    } else if c == '\\' {
        seq!['\\', '\\']
    } else if c == '\u{8}' {
        seq!['\\', 'b']
    } else if c == '\t' {
        seq!['\\', 't']
    } else if c == '\n' {
        seq!['\\', 'n']
    } else if c == '\u{c}' {
        seq!['\\', 'f']
    } else if c == '\r' {
        seq!['\\', 'r']
    } else if (c as int) < 0x20 {
        seq!['\\', 'u', '0', '0', hex_digit((c as int) / 16), hex_digit((c as int) % 16)]
    } else {
        seq![c]
    }
}

/// The characters of `text`, each written as `json_escape_char` says.
pub open spec fn json_escape(text: Seq<char>) -> Seq<char>
    decreases text.len(),
{
    if text.len() == 0 {
        Seq::empty()
    } else {
        json_escape_char(text[0]) + json_escape(text.drop_first())
    }
}

/// The JSON string literal that `serde_json` writes for `text`: the text,
/// escaped, in double quotes.
pub open spec fn json_string_literal(text: Seq<char>) -> Seq<char> {
    seq!['"'] + json_escape(text) + seq!['"']
}

/// The fields of a JSON object whose values are all strings, as `serde_json`
/// reads them from `body` into a map ordered by key (a later duplicate key
/// replaces an earlier one); `None` when `body` holds no such object.
pub uninterp spec fn json_string_fields(body: Seq<u8>) -> Option<Seq<(Seq<char>, Seq<char>)>>;

/// The bytes that `text` encodes in the standard base64 alphabet, as the
/// `base64` crate decodes them (trailing `=` padding is accepted but not
/// required); `None` when `text` is not such an encoding.
pub uninterp spec fn base64_decoded(text: Seq<char>) -> Option<Seq<u8>>;

/// Calls `serde_json`'s `Display` of a `Value::String`: the JSON string
/// literal of `text`, written compactly, as `json_string_literal` states it.
#[verifier::external_body]
fn json_quote(text: &str) -> (quoted: String)
    ensures
        quoted@ == json_string_literal(text@),
{
    serde_json::Value::String(text.to_string()).to_string()
}

/// Calls `serde_json::from_slice` to read `body` as a JSON object of string
/// values into a `BTreeMap<String, String>`, and hands out its entries in
/// key order. What it reads is named `json_string_fields`; the keys of a
/// map are distinct, so no two entries handed out share a key.
#[verifier::external_body]
fn parse_string_fields(body: &[u8]) -> (res: Result<Vec<(String, String)>, serde_json::Error>)
    ensures
        match res {
            Ok(fields) => {
                &&& json_string_fields(body@) == Some(fields.deep_view())
                &&& forall|i: int, j: int| 0 <= i < j < fields.len()
                    ==> #[trigger] fields.deep_view()[i].0 != #[trigger] fields.deep_view()[j].0
            },
            Err(_) => json_string_fields(body@) is None,
        },
{
    match serde_json::from_slice::<std::collections::BTreeMap<String, String>>(body) {
        Ok(fields) => Ok(fields.into_iter().collect()),
        Err(e) => Err(e),
    }
}

/// Calls `base64::decode` (standard alphabet, padded) on the bytes of
/// `text`. What it decodes is named `base64_decoded`. The crate panics only
/// when the input's length plus three overflows `usize`, which no string
/// in memory reaches; that bound is not stated.
#[verifier::external_body]
fn decode_base64(text: &str) -> (res: Result<Vec<u8>, base64::DecodeError>)
    ensures
        match res {
            Ok(bytes) => base64_decoded(text@) == Some(bytes@),
            Err(_) => base64_decoded(text@) is None,
        },
{
    base64::decode(text.as_bytes())
}

/// Why the audio of a synthesis response could not be had.
#[derive(PartialEq, Eq, Structural, Clone, Copy, Debug)]
pub enum SynthesisError {
    /// The service answered with a status other than success.
    Rejected,
    /// The body is not a JSON object whose values are all strings.
    MalformedBody,
    /// The body has no audio field.
    MissingAudio,
    /// The audio field is not base64.
    InvalidAudio,
}

/// The JSON body of the request that synthesizes `text`: 48 kHz linear
/// 16-bit audio in the voice "maxim", with the object keys in order.
pub open spec fn request_body_spec(text: Seq<char>) -> Seq<char> {
    "{\"audioConfig\":{\"audioEncoding\":\"LINEAR16\",\"sampleRateHertz\":\"48000\"},\"input\":{\"text\":"@
        + json_string_literal(text)
        + "},\"voice\":{\"name\":\"maxim\"}}"@
}

/// The value of the hexadecimal digit `d` (either case), if it is one.
pub open spec fn hex_value(d: char) -> Option<int> {
    let v = d as int;
    if ('0' as int) <= v <= ('9' as int) {
        Some(v - ('0' as int))
    } else if ('a' as int) <= v <= ('f' as int) {
        Some(v - ('a' as int) + 10)
    } else if ('A' as int) <= v <= ('F' as int) {
        Some(v - ('A' as int) + 10)
    } else {
        None
    }
}

/// The character that a JSON escape `\e` of one letter stands for.
pub open spec fn json_simple_escape(e: char) -> Option<char> {
    if e == '"' {
        Some('"')
    } else if e == '\\' {
        Some('\\')
    } else if e == '/' {
        Some('/')
    } else if e == 'b' {
        Some('\u{8}')
    } else if e == 'f' {
        Some('\u{c}')
    } else if e == 'n' {
        Some('\n')
    } else if e == 'r' {
        Some('\r')
    } else if e == 't' {
        Some('\t')
    } else {
        None
    }
}

/// The text that the inside of a JSON string (between its quotes) stands
/// for, reading its escapes as JSON defines them (a `\u` escape of a
/// surrogate is not read); `None` when it is not the inside of a JSON string.
pub open spec fn json_unescape(s: Seq<char>) -> Option<Seq<char>>
    decreases s.len(),
{
    if s.len() == 0 {
        Some(Seq::empty())
    } else if s[0] == '"' {
        None
    } else if s[0] == '\\' {
        if s.len() < 2 {
            None
        } else {
            match json_simple_escape(s[1]) {
                Some(c) => match json_unescape(s.skip(2)) {
                    Some(r) => Some(seq![c] + r),
                    None => None,
                },
                None => if s[1] == 'u' && s.len() >= 6 {
                    match (hex_value(s[2]), hex_value(s[3]), hex_value(s[4]), hex_value(s[5])) {
                        (Some(d1), Some(d2), Some(d3), Some(d4)) => {
                            let v = 4096 * d1 + 256 * d2 + 16 * d3 + d4;
                            if 0xD800 <= v <= 0xDFFF {
                                None
                            } else {
                                match json_unescape(s.skip(6)) {
                                    Some(r) => Some(seq![v as char] + r),
                                    None => None,
                                }
                            }
                        },
                        _ => None,
                    }
                } else {
                    None
                },
            }
        }
    } else {
        match json_unescape(s.drop_first()) {
            Some(r) => Some(seq![s[0]] + r),
            None => None,
        }
    }
}

/// The text that a JSON string literal stands for; `None` when `lit` is not
/// one.
pub open spec fn json_string_value(lit: Seq<char>) -> Option<Seq<char>> {
    if lit.len() >= 2 && lit[0] == '"' && lit[lit.len() - 1] == '"' {
        json_unescape(lit.subrange(1, lit.len() - 1))
    } else {
        None
    }
}

proof fn lemma_hex_digit_value(d: int)
    requires
        0 <= d < 16,
    ensures
        hex_value(hex_digit(d)) == Some(d),
{
}

proof fn lemma_char_nonnegative(c: char)
    ensures
        0 <= c as int,
{
    assert((c as u32) as int == c as int);
}

proof fn lemma_unescape_escape(t: Seq<char>)
    ensures
        json_unescape(json_escape(t)) == Some(t),
    decreases t.len(),
{
    if t.len() > 0 {
        let c = t[0];
        let rest = t.drop_first();
        lemma_unescape_escape(rest);
        let e = json_escape_char(c);
        let r = json_escape(rest);
        let s = e + r;
        assert(json_escape(t) == s);
        assert(seq![c] + rest =~= t);
        let special = c == '"' || c == '\\' || c == '\u{8}' || c == '\t' || c == '\n' || c == '\u{c}' || c == '\r';
        if !special && (c as int) >= 0x20 {
            assert(e == seq![c]);
            assert(s[0] == c);
            assert(s.drop_first() =~= r);
            assert(c != '"' && c != '\\');
        } else if special {
            assert(s[0] == '\\');
            assert(s[1] == e[1]);
            assert(s.skip(2) =~= r);
            assert(json_simple_escape(e[1]) == Some(c));
        } else {
            let v = c as int;
            assert(v < 0x20);
            lemma_char_nonnegative(c);
            assert(0 <= v);
            assert(s[0] == '\\' && s[1] == 'u' && s[2] == '0' && s[3] == '0');
            assert(s[4] == hex_digit(v / 16) && s[5] == hex_digit(v % 16));
            lemma_hex_digit_value(v / 16);
            lemma_hex_digit_value(v % 16);
            assert(hex_value('0') == Some(0int));
            assert(json_simple_escape('u') is None);
            assert(s.skip(6) =~= r);
            assert(16 * (v / 16) + v % 16 == v);
            assert((v as char) == c);
        }
    }
}

/// The JSON string literal that `serde_json` writes for a text stands for
/// that whole text: reading it back as JSON gives the text, every character
/// of it and nothing more.
pub proof fn law_json_string_literal_reads_back(text: Seq<char>)
    ensures
        json_string_value(json_string_literal(text)) == Some(text),
{
    let lit = json_string_literal(text);
    assert(lit[0] == '"');
    assert(lit[lit.len() - 1] == '"');
    assert(lit.subrange(1, lit.len() - 1) =~= json_escape(text));
    lemma_unescape_escape(text);
}

/// The text that a request body asks to have spoken: the JSON string between
/// the body's fixed beginning, up to `"text":`, and its fixed end.
pub open spec fn request_text(body: Seq<char>) -> Option<Seq<char>> {
    let head = "{\"audioConfig\":{\"audioEncoding\":\"LINEAR16\",\"sampleRateHertz\":\"48000\"},\"input\":{\"text\":"@;
    let tail = "},\"voice\":{\"name\":\"maxim\"}}"@;
    if body.len() >= head.len() + tail.len() && body.subrange(0, head.len() as int) == head
        && body.subrange(body.len() - tail.len(), body.len() as int) == tail {
        json_string_value(body.subrange(head.len() as int, body.len() - tail.len()))
    } else {
        None
    }
}

/// The body of the request that synthesizes a text carries that whole text:
/// its text field reads back as exactly the text.
pub proof fn law_request_body_carries_text(text: Seq<char>)
    ensures
        request_text(request_body_spec(text)) == Some(text),
{
    let head = "{\"audioConfig\":{\"audioEncoding\":\"LINEAR16\",\"sampleRateHertz\":\"48000\"},\"input\":{\"text\":"@;
    let tail = "},\"voice\":{\"name\":\"maxim\"}}"@;
    let lit = json_string_literal(text);
    let body = request_body_spec(text);
    assert(body == head + lit + tail);
    assert(body.subrange(0, head.len() as int) =~= head);
    assert(body.subrange(body.len() - tail.len(), body.len() as int) =~= tail);
    assert(body.subrange(head.len() as int, body.len() - tail.len()) =~= lit);
    law_json_string_literal_reads_back(text);
}

/// The value of the first field named `key`.
pub open spec fn field_value(fields: Seq<(Seq<char>, Seq<char>)>, key: Seq<char>) -> Option<Seq<char>>
    decreases fields.len(),
{
    if fields.len() == 0 {
        None
    } else if fields[0].0 == key {
        Some(fields[0].1)
    } else {
        field_value(fields.drop_first(), key)
    }
}

/// The audio that a successful response with these fields carries.
pub open spec fn audio_of_fields(fields: Seq<(Seq<char>, Seq<char>)>) -> Result<Seq<u8>, SynthesisError> {
    match field_value(fields, AUDIO_FIELD@) {
        None => Err(SynthesisError::MissingAudio),
        Some(text) => match base64_decoded(text) {
            None => Err(SynthesisError::InvalidAudio),
            Some(bytes) => Ok(bytes),
        },
    }
}

/// The audio that a response carries, from whether its status was success
/// and its body.
pub open spec fn audio_of_response(success: bool, body: Seq<u8>) -> Result<Seq<u8>, SynthesisError> {
    if !success {
        Err(SynthesisError::Rejected)
    } else {
        match json_string_fields(body) {
            None => Err(SynthesisError::MalformedBody),
            Some(fields) => audio_of_fields(fields),
        }
    }
}

pub open spec fn audio_view(r: Result<Vec<u8>, SynthesisError>) -> Result<Seq<u8>, SynthesisError> {
    match r {
        Ok(bytes) => Ok(bytes@),
        Err(e) => Err(e),
    }
}

proof fn lemma_field_value_skip(fields: Seq<(Seq<char>, Seq<char>)>, key: Seq<char>, i: int)
    requires
        0 <= i <= fields.len(),
        forall|j: int| 0 <= j < i ==> #[trigger] fields[j].0 != key,
    ensures
        field_value(fields, key) == field_value(fields.skip(i), key),
    decreases i,
{
    if i > 0 {
        let rest = fields.drop_first();
        assert forall|j: int| 0 <= j < i - 1 implies #[trigger] rest[j].0 != key by {
            assert(rest[j] == fields[j + 1]);
        }
        lemma_field_value_skip(rest, key, i - 1);
        assert(rest.skip(i - 1) =~= fields.skip(i));
    } else {
        assert(fields.skip(0) =~= fields);
    }
}

/// The value of the first field named `key` is what a lookup of `key`
/// finds: the value of the first entry with that key, or nothing when no
/// entry has it.
pub proof fn law_field_value_first_match(fields: Seq<(Seq<char>, Seq<char>)>, key: Seq<char>)
    ensures
        forall|i: int| 0 <= i < fields.len() && #[trigger] fields[i].0 == key
            && (forall|j: int| 0 <= j < i ==> fields[j].0 != key)
            ==> field_value(fields, key) == Some(fields[i].1),
        (forall|i: int| 0 <= i < fields.len() ==> #[trigger] fields[i].0 != key)
            ==> field_value(fields, key) is None,
{
    assert forall|i: int| 0 <= i < fields.len() && #[trigger] fields[i].0 == key
        && (forall|j: int| 0 <= j < i ==> fields[j].0 != key)
        implies field_value(fields, key) == Some(fields[i].1) by {
        lemma_field_value_skip(fields, key, i);
        assert(fields.skip(i)[0] == fields[i]);
    }
    if forall|i: int| 0 <= i < fields.len() ==> #[trigger] fields[i].0 != key {
        lemma_field_value_skip(fields, key, fields.len() as int);
        assert(fields.skip(fields.len() as int).len() == 0);
    }
}

/// The audio of a successful response's fields is exactly the decoding of
/// its `audio_content` field, when that field is base64; without the field
/// it is missing, and with a field that is not base64 it is invalid.
pub proof fn law_audio_is_decoded_field(fields: Seq<(Seq<char>, Seq<char>)>)
    ensures
        field_value(fields, "audio_content"@) is None ==> audio_of_fields(fields) == Err::<Seq<u8>, SynthesisError>(SynthesisError::MissingAudio),
        field_value(fields, "audio_content"@) matches Some(t) ==> (base64_decoded(t) is None
            ==> audio_of_fields(fields) == Err::<Seq<u8>, SynthesisError>(SynthesisError::InvalidAudio)),
        field_value(fields, "audio_content"@) matches Some(t) ==> (base64_decoded(t) matches Some(b)
            ==> audio_of_fields(fields) == Ok::<Seq<u8>, SynthesisError>(b)),
{
}

/// The audio of a response: a status other than success is refused; a body
/// that is not a JSON object of strings is malformed; otherwise the audio is
/// what its `audio_content` field decodes to, the whole of it.
pub proof fn law_response_audio(success: bool, body: Seq<u8>)
    ensures
        !success ==> audio_of_response(success, body) == Err::<Seq<u8>, SynthesisError>(SynthesisError::Rejected),
        success && json_string_fields(body) is None
            ==> audio_of_response(success, body) == Err::<Seq<u8>, SynthesisError>(SynthesisError::MalformedBody),
        success ==> (json_string_fields(body) matches Some(f) ==> (field_value(f, "audio_content"@) is None
            ==> audio_of_response(success, body) == Err::<Seq<u8>, SynthesisError>(SynthesisError::MissingAudio))),
        success ==> (json_string_fields(body) matches Some(f) ==> (field_value(f, "audio_content"@) matches Some(t)
            ==> (base64_decoded(t) is None
            ==> audio_of_response(success, body) == Err::<Seq<u8>, SynthesisError>(SynthesisError::InvalidAudio)))),
        success ==> (json_string_fields(body) matches Some(f) ==> (field_value(f, "audio_content"@) matches Some(t)
            ==> (base64_decoded(t) matches Some(b)
            ==> audio_of_response(success, body) == Ok::<Seq<u8>, SynthesisError>(b)))),
{
    if success {
        if let Some(f) = json_string_fields(body) {
            law_audio_is_decoded_field(f);
        }
    }
}

/// The body of the request that synthesizes `text`; its text field reads
/// back as the whole of `text`.
pub fn request_body(text: &str) -> (body: String)
    ensures
        body@ == request_body_spec(text@),
        body@ == "{\"audioConfig\":{\"audioEncoding\":\"LINEAR16\",\"sampleRateHertz\":\"48000\"},\"input\":{\"text\":"@
            + json_string_literal(text@) + "},\"voice\":{\"name\":\"maxim\"}}"@,
        request_text(body@) == Some(text@),
{
    let mut body = String::from_str(
        "{\"audioConfig\":{\"audioEncoding\":\"LINEAR16\",\"sampleRateHertz\":\"48000\"},\"input\":{\"text\":",
    );
    let quoted = json_quote(text);
    body.append(quoted.as_str());
    body.append("},\"voice\":{\"name\":\"maxim\"}}");
    proof {
        law_request_body_carries_text(text@);
    }
    body
}

/// The value of the authorization header that presents `token`.
pub fn authorization(token: &str) -> (value: String)
    ensures
        value@ == "Bearer "@ + token@,
{
    let mut value = String::from_str("Bearer ");
    value.append(token);
    value
}

/// The value of the first field named `key`.
pub fn find_field<'a>(fields: &'a Vec<(String, String)>, key: &str) -> (value: Option<&'a String>)
    ensures
        match value {
            Some(v) => field_value(fields.deep_view(), key@) == Some(v@),
            None => field_value(fields.deep_view(), key@) is None,
        },
        match value {
            Some(v) => exists|i: int| 0 <= i < fields.len() && #[trigger] fields.deep_view()[i].0 == key@
                && fields.deep_view()[i].1 == v@
                && forall|j: int| 0 <= j < i ==> fields.deep_view()[j].0 != key@,
            None => forall|i: int| 0 <= i < fields.len() ==> #[trigger] fields.deep_view()[i].0 != key@,
        },
{
    let ghost f = fields.deep_view();
    let key_string = String::from_str(key);
    let mut i: usize = 0;
    while i < fields.len()
        invariant
            i <= fields.len(),
            f == fields.deep_view(),
            key_string@ == key@,
            forall|j: int| 0 <= j < i ==> #[trigger] f[j].0 != key@,
        decreases fields.len() - i,
    {
        assert(f[i as int] == (fields[i as int].0@, fields[i as int].1@));
        if fields[i].0 == key_string {
            proof {
                lemma_field_value_skip(f, key@, i as int);
                assert(f.skip(i as int)[0] == f[i as int]);
            }
            assert(f[i as int].0 == key@);
            return Some(&fields[i].1);
        }
        i = i + 1;
    }
    proof {
        lemma_field_value_skip(f, key@, i as int);
        assert(f.skip(i as int).len() == 0);
    }
    None
}

/// The audio that a successful response with these fields carries: its
/// audio field, decoded from base64.
pub fn audio_from_fields(fields: &Vec<(String, String)>) -> (audio: Result<Vec<u8>, SynthesisError>)
    ensures
        audio_view(audio) == audio_of_fields(fields.deep_view()),
        field_value(fields.deep_view(), "audio_content"@) is None ==> audio == Err::<Vec<u8>, SynthesisError>(SynthesisError::MissingAudio),
        field_value(fields.deep_view(), "audio_content"@) matches Some(t) ==> (base64_decoded(t) is None
            ==> audio == Err::<Vec<u8>, SynthesisError>(SynthesisError::InvalidAudio)),
        field_value(fields.deep_view(), "audio_content"@) matches Some(t) ==> (base64_decoded(t) matches Some(b)
            ==> (audio matches Ok(v) && v@ == b)),
{
    proof {
        law_audio_is_decoded_field(fields.deep_view());
    }
    match find_field(fields, AUDIO_FIELD) {
        None => Err(SynthesisError::MissingAudio),
        Some(text) => match decode_base64(text.as_str()) {
            Ok(bytes) => Ok(bytes),
            Err(_) => Err(SynthesisError::InvalidAudio),
        },
    }
}

/// The audio that a synthesis response carries, from whether its status was
/// success and its body.
pub fn audio_from_response(success: bool, body: &[u8]) -> (audio: Result<Vec<u8>, SynthesisError>)
    ensures
        audio_view(audio) == audio_of_response(success, body@),
        !success ==> audio == Err::<Vec<u8>, SynthesisError>(SynthesisError::Rejected),
        success && json_string_fields(body@) is None ==> audio == Err::<Vec<u8>, SynthesisError>(SynthesisError::MalformedBody),
        success ==> (json_string_fields(body@) matches Some(f) ==> (field_value(f, "audio_content"@) is None
            ==> audio == Err::<Vec<u8>, SynthesisError>(SynthesisError::MissingAudio))),
        success ==> (json_string_fields(body@) matches Some(f) ==> (field_value(f, "audio_content"@) matches Some(t)
            ==> (base64_decoded(t) is None
            ==> audio == Err::<Vec<u8>, SynthesisError>(SynthesisError::InvalidAudio)))),
        success ==> (json_string_fields(body@) matches Some(f) ==> (field_value(f, "audio_content"@) matches Some(t)
            ==> (base64_decoded(t) matches Some(b)
            ==> (audio matches Ok(v) && v@ == b)))),
{
    proof {
        law_response_audio(success, body@);
    }
    if !success {
        return Err(SynthesisError::Rejected);
    }
    match parse_string_fields(body) {
        Err(_) => Err(SynthesisError::MalformedBody),
        Ok(fields) => audio_from_fields(&fields),
    }
}

} // verus!
