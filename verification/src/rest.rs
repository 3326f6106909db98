//! The REST client's request and response handling: the method and header
//! options, where the body comes from, how a status is classed, and how a
//! response body is shown.

use vstd::prelude::*;
use vstd::string::StringExecFns;
use vstd::string::StrSliceExecFns;
use crate::text::{
    ascii_upper_char, ascii_uppercase, find_first, lemma_ascii_case_variants, to_uppercase, trim,
    trimmed, uppercase,
};
use reqwest::Method;

verus! {

/// A character allowed in an HTTP method name (an RFC 9110 `tchar`).
pub open spec fn is_tchar(c: char) -> bool {
    ||| '0' <= c <= '9'
    ||| 'A' <= c <= 'Z'
    ||| 'a' <= c <= 'z'
    ||| c == '!' || c == '#' || c == '$' || c == '%' || c == '&' || c == '\''
    ||| c == '*' || c == '+' || c == '-' || c == '.' || c == '^' || c == '_'
    ||| c == '`' || c == '|' || c == '~'
}

/// A valid HTTP method name: one or more `tchar`s.
pub open spec fn is_method_token(s: Seq<char>) -> bool {
    s.len() > 0 && forall|i: int| 0 <= i < s.len() ==> is_tchar(#[trigger] s[i])
}

/// Calls `Method::from_str` (the http crate's, re-exported by reqwest) and
/// reports whether it succeeds.  Its source accepts exactly the non-empty
/// texts whose every byte is a `tchar` (a character outside ASCII encodes
/// to bytes that never are), and keeps the text as the method's name.
#[verifier::external_body]
fn is_http_method(s: &str) -> (r: bool)
    ensures
        r == is_method_token(s@),
{
    s.parse::<Method>().is_ok()
}

/// An HTTP method, by its name: a method token, case-sensitive, as
/// `reqwest::Method` holds it.
#[derive(Debug, PartialEq, Eq)]
pub struct HttpMethod {
    pub name: String,
}

/// The message for a method option that names no method.
pub open spec fn method_error_text(s: Seq<char>) -> Seq<char> {
    "Invalid HTTP method: '"@ + s + "'. Use GET, POST, PUT, DELETE, etc."@
}

/// Reads a method option: the text is uppercased, and the method is the
/// one of that name when it is a method token.  For ASCII text the
/// uppercasing is that of the letters `a`..`z` alone, so spellings that
/// differ only in letter case give the same method.
pub fn parse_method(s: &str) -> (r: Result<HttpMethod, String>)
    ensures
        r is Ok <==> is_method_token(uppercase(s@)),
        r matches Ok(m) ==> m.name@ == uppercase(s@),
        r matches Err(e) ==> e@ == method_error_text(s@),
        vstd::utf8::is_ascii_chars(s@) ==> uppercase(s@) == ascii_uppercase(s@),
{
    let upper = to_uppercase(s);
    if is_http_method(upper.as_str()) {
        Ok(HttpMethod { name: upper })
    } else {
        let mut e = String::from_str("Invalid HTTP method: '");
        e.append(s);
        e.append("'. Use GET, POST, PUT, DELETE, etc.");
        Err(e)
    }
}

/// Two ASCII spellings of a method option that differ only in letter case
/// name the same method, or are both refused.
pub proof fn lemma_method_ignores_ascii_case(s: Seq<char>, t: Seq<char>)
    requires
        vstd::utf8::is_ascii_chars(s),
        vstd::utf8::is_ascii_chars(t),
        s.len() == t.len(),
        forall|i: int| 0 <= i < s.len() ==> ascii_upper_char(#[trigger] s[i]) == ascii_upper_char(t[i]),
        uppercase(s) == ascii_uppercase(s),
        uppercase(t) == ascii_uppercase(t),
    ensures
        uppercase(s) == uppercase(t),
        is_method_token(uppercase(s)) == is_method_token(uppercase(t)),
{
    lemma_ascii_case_variants(s, t);
}

/// A non-empty word of ASCII letters, such as `GET` or `PURGE`, names a
/// method; a text with a space, a `:` or a character outside ASCII never
/// does.
pub proof fn lemma_method_token_shape(s: Seq<char>)
    ensures
        s.len() > 0 && (forall|i: int| 0 <= i < s.len() ==> ('A' <= #[trigger] s[i] <= 'Z' || 'a' <= s[i] <= 'z'))
            ==> is_method_token(s),
        (s.contains(' ') || s.contains(':')) ==> !is_method_token(s),
        (exists|i: int| 0 <= i < s.len() && (s[i] as u32) > 0x7f) ==> !is_method_token(s),
{
    if s.contains(' ') || s.contains(':') {
        let i = choose|i: int| 0 <= i < s.len() && (s[i] == ' ' || s[i] == ':');
        assert(!is_tchar(s[i]));
    }
    if exists|i: int| 0 <= i < s.len() && (s[i] as u32) > 0x7f {
        let i = choose|i: int| 0 <= i < s.len() && (s[i] as u32) > 0x7f;
        assert(!is_tchar(s[i]));
    }
}

/// The message for a header option without a key.
pub open spec fn header_error_text(s: Seq<char>) -> Seq<char> {
    "Invalid header format '"@ + s + "'. Expected 'Key: Value'"@
}

/// A header option `Key: Value` split at its first `:`, both sides
/// trimmed; an error when there is no `:` or the key is empty.
pub open spec fn header_parts(s: Seq<char>) -> Result<(Seq<char>, Seq<char>), Seq<char>> {
    match s.index_of_first(':') {
        Some(i) => {
            let key = trimmed(s.subrange(0, i));
            let value = trimmed(s.subrange(i + 1, s.len() as int));
            if key.len() > 0 {
                Ok((key, value))
            } else {
                Err(header_error_text(s))
            }
        },
        None => Err(header_error_text(s)),
    }
}

/// `r` holds, as `String`s, what `header_parts` gives for `s`.
pub open spec fn is_header_result(r: Result<(String, String), String>, s: Seq<char>) -> bool {
    match r {
        Ok((k, v)) => header_parts(s) == Ok::<(Seq<char>, Seq<char>), Seq<char>>((k@, v@)),
        Err(e) => header_parts(s) == Err::<(Seq<char>, Seq<char>), Seq<char>>(e@),
    }
}

/// Reads a header option written `Key: Value`.
pub fn parse_header(header_str: &str) -> (r: Result<(String, String), String>)
    ensures
        is_header_result(r, header_str@),
{
    let n = header_str.unicode_len();
    match find_first(header_str, ':') {
        Some(i) => {
            proof {
                header_str@.index_of_first_ensures(':');
            }
            let key = trim(header_str.substring_char(0, i));
            let value = trim(header_str.substring_char(i + 1, n));
            if key.unicode_len() > 0 {
                return Ok((key.to_owned(), value.to_owned()));
            }
        },
        None => {},
    }
    let mut e = String::from_str("Invalid header format '");
    e.append(header_str);
    e.append("'. Expected 'Key: Value'");
    Err(e)
}

/// Reads every header option, in order.
pub fn parse_headers(headers: &Vec<String>) -> (r: Vec<Result<(String, String), String>>)
    ensures
        r.len() == headers.len(),
        forall|i: int| 0 <= i < r.len() ==> is_header_result(#[trigger] r[i], headers[i]@),
{
    let mut r: Vec<Result<(String, String), String>> = Vec::new();
    for i in 0..headers.len()
        invariant
            r.len() == i,
            forall|k: int| 0 <= k < i ==> is_header_result(#[trigger] r[k], headers[k]@),
    {
        r.push(parse_header(headers[i].as_str()));
    }
    r
}

/// A key with no `:` and no whitespace at its ends, which is not empty,
/// and a value with no whitespace at its ends, written `key:value` with
/// any whitespace around the `:`, read back as that key and value.
pub proof fn lemma_header_round_trip(key: Seq<char>, value: Seq<char>, pad_before: Seq<char>, pad_after: Seq<char>)
    requires
        key.len() > 0,
        !key.contains(':'),
        crate::text::is_trimmed(key),
        crate::text::is_trimmed(value),
        forall|i: int| 0 <= i < pad_before.len() ==> crate::text::is_space(#[trigger] pad_before[i]),
        forall|i: int| 0 <= i < pad_after.len() ==> crate::text::is_space(#[trigger] pad_after[i]),
    ensures
        header_parts(key + pad_before + ":"@ + pad_after + value) == Ok::<(Seq<char>, Seq<char>), Seq<char>>((key, value)),
{
    reveal_strlit(":");
    let s = key + pad_before + ":"@ + pad_after + value;
    let i: int = (key.len() + pad_before.len()) as int;
    assert(s[i] == ':');
    assert(s.contains(':'));
    s.index_of_first_ensures(':');
    let j = s.index_of_first(':').unwrap();
    if j < key.len() {
        assert(s[j] == key[j]);
    } else if j < i {
        assert(s[j] == pad_before[j - key.len()]);
        assert(crate::text::is_space(s[j]));
    }
    assert(j == i);
    assert(s.subrange(0, i) =~= key + pad_before);
    assert(s.subrange(i + 1, s.len() as int) =~= pad_after + value);
    lemma_trim_drops_space_suffix(key, pad_before);
    lemma_trim_drops_space_prefix(pad_after, value);
}

proof fn lemma_trim_drops_space_suffix(t: Seq<char>, pad: Seq<char>)
    requires
        t.len() > 0,
        crate::text::is_trimmed(t),
        forall|i: int| 0 <= i < pad.len() ==> crate::text::is_space(#[trigger] pad[i]),
    ensures
        trimmed(t + pad) == t,
    decreases pad.len(),
{
    if pad.len() == 0 {
        assert(t + pad =~= t);
        crate::text::lemma_trimmed_fixed(t);
    } else {
        let shorter = pad.drop_last();
        lemma_trim_drops_space_suffix(t, shorter);
        assert(crate::text::trim_start(t + pad) =~= t + pad);
        assert(crate::text::trim_start(t + shorter) =~= t + shorter);
        assert((t + pad).drop_last() =~= t + shorter);
        assert(crate::text::is_space((t + pad).last()));
    }
}

proof fn lemma_trim_drops_space_prefix(pad: Seq<char>, t: Seq<char>)
    requires
        crate::text::is_trimmed(t),
        forall|i: int| 0 <= i < pad.len() ==> crate::text::is_space(#[trigger] pad[i]),
    ensures
        trimmed(pad + t) == t,
    decreases pad.len(),
{
    if pad.len() == 0 {
        assert(pad + t =~= t);
        crate::text::lemma_trimmed_fixed(t);
    } else {
        let rest = pad.drop_first();
        lemma_trim_drops_space_prefix(rest, t);
        assert((pad + t).drop_first() =~= rest + t);
        assert(crate::text::is_space((pad + t)[0]));
    }
}


/// Where a request body comes from.
#[derive(Debug, PartialEq, Eq)]
pub enum BodySource {
    /// The text given on the command line.
    Inline(String),
    /// The contents of the file at this path.
    File(String),
    /// No body.
    Empty,
}

/// Inline data wins over a file; with neither there is no body.
pub fn body_source(data: &Option<String>, file: &Option<String>) -> (r: BodySource)
    ensures
        data matches Some(d) ==> r == BodySource::Inline(*d),
        data is None ==> (file matches Some(f) ==> r == BodySource::File(*f)),
        data is None && file is None ==> r == BodySource::Empty,
{
    match data {
        Some(d) => BodySource::Inline(d.clone()),
        None => match file {
            Some(f) => BodySource::File(f.clone()),
            None => BodySource::Empty,
        },
    }
}

/// How a response status is shown.
#[derive(Clone, Copy, Debug, PartialEq, Eq, Structural)]
pub enum StatusClass {
    /// 200 to 299.
    Success,
    /// 400 to 499.
    ClientError,
    /// 500 to 599.
    ServerError,
    /// Any other code.
    Other,
}

/// The class of a status code.
pub fn status_class(code: u16) -> (r: StatusClass)
    ensures
        200 <= code <= 299 <==> r == StatusClass::Success,
        400 <= code <= 499 <==> r == StatusClass::ClientError,
        500 <= code <= 599 <==> r == StatusClass::ServerError,
        r == StatusClass::Other <==> !(200 <= code <= 299 || 400 <= code <= 599),
{
    if 200 <= code && code <= 299 {
        StatusClass::Success
    } else if 400 <= code && code <= 499 {
        StatusClass::ClientError
    } else if 500 <= code && code <= 599 {
        StatusClass::ServerError
    } else {
        StatusClass::Other
    }
}

/// How a response body is shown.
#[derive(Clone, Copy, Debug, PartialEq, Eq, Structural)]
pub enum OutputFormat {
    /// Reindented when it is JSON, as it came otherwise.
    Auto,
    /// Reindented when it is JSON, as it came otherwise.
    Json,
    /// As it came.
    Raw,
    /// Reindented when it is JSON, as it came otherwise.
    Pretty,
}

/// Whether `serde_json::from_str::<Value>` accepts `s`: a property of `s`
/// alone, which the JSON grammar decides.
pub uninterp spec fn is_json_text(s: Seq<char>) -> bool;

/// The text `serde_json::to_string_pretty` writes for the value that
/// `serde_json::from_str::<Value>` reads from `s`: a function of `s` alone.
pub uninterp spec fn json_pretty_text(s: Seq<char>) -> Seq<char>;

/// Calls `serde_json::from_str::<Value>` and writes the value back out
/// with `serde_json::to_string_pretty`.  Writing a value that was read
/// cannot fail: serde_json's writer fails only for map keys that are not
/// strings or for a failing `Serialize` impl, and neither occurs in a
/// `Value`.  The contract claims that the text comes back exactly when `s`
/// is JSON, and that it is `json_pretty_text(s@)`; the indentation rules
/// are serde_json's and are not restated.
#[verifier::external_body]
fn reformat_json(s: &str) -> (r: Option<String>)
    ensures
        r is Some <==> is_json_text(s@),
        r matches Some(t) ==> t@ == json_pretty_text(s@),
{
    match serde_json::from_str::<serde_json::Value>(s) {
        Ok(value) => serde_json::to_string_pretty(&value).ok(),
        Err(_) => None,
    }
}

/// A JSON value, held as a text that serde_json reads as JSON.
pub struct JsonValue {
    text: String,
}

impl JsonValue {
    /// The text the value was read from.
    pub closed spec fn source(&self) -> Seq<char> {
        self.text@
    }

    #[verifier::type_invariant]
    spec fn is_json(&self) -> bool {
        is_json_text(self.text@)
    }

    /// The value `s` writes, when `s` is JSON.
    pub fn parse(s: &str) -> (r: Option<JsonValue>)
        ensures
            r is Some <==> is_json_text(s@),
            r matches Some(v) ==> v.source() == s@,
    {
        if reformat_json(s).is_some() {
            Some(JsonValue { text: s.to_owned() })
        } else {
            None
        }
    }
}

/// A JSON value written with indentation, as serde_json writes it.
pub fn pretty_print_json(value: &JsonValue) -> (r: String)
    ensures
        r@ == json_pretty_text(value.source()),
{
    proof {
        use_type_invariant(value);
    }
    match reformat_json(value.text.as_str()) {
        Some(text) => text,
        None => String::new(),
    }
}

/// Why a body could not be shown: serde_json could not write a value it
/// read back out.  `format_body` never returns it, since a value read
/// from JSON text can always be written.
#[derive(Clone, Copy, Debug, PartialEq, Eq, Structural)]
pub enum FormatError {
    Serialize,
}

/// The text shown for a response body.  `Raw`, and a body that is not
/// JSON, give the body unchanged; every other format gives a JSON body
/// reindented as serde_json writes it.
pub fn format_body(body: &str, format: OutputFormat) -> (r: Result<String, FormatError>)
    ensures
        r is Ok,
        format == OutputFormat::Raw ==> (r matches Ok(t) && t@ == body@),
        format != OutputFormat::Raw && !is_json_text(body@) ==> (r matches Ok(t) && t@ == body@),
        format != OutputFormat::Raw && is_json_text(body@) ==> (r matches Ok(t) && t@ == json_pretty_text(body@)),
{
    match format {
        OutputFormat::Raw => Ok(body.to_owned()),
        _ => match JsonValue::parse(body) {
            Some(value) => Ok(pretty_print_json(&value)),
            None => Ok(body.to_owned()),
        },
    }
}

/// How a character of JSON text is coloured when a body is shown pretty:
/// strings (with their quotes), numbers, the words `true`, `false` and
/// `null`, and everything else.
#[derive(Clone, Copy, Debug, PartialEq, Eq, Structural)]
pub enum JsonPaint {
    Plain,
    Text,
    Number,
    Keyword,
}

/// Where a left-to-right reading of JSON text stands.
#[derive(Clone, Copy, Debug, PartialEq, Eq, Structural)]
pub enum JsonScan {
    /// Between tokens, or in a word.
    Outside,
    /// In a number.
    InNumber,
    /// In a string.
    InString,
    /// Just after a backslash in a string.
    AfterEscape,
}

/// A character that may continue a JSON number.
pub open spec fn is_number_char(c: char) -> bool {
    ('0' <= c && c <= '9') || c == '-' || c == '+' || c == '.' || c == 'e' || c == 'E'
}

/// The paint of `c` read between tokens, and the state after it.
pub open spec fn outside_step(c: char) -> (JsonPaint, JsonScan) {
    if c == '"' {
        (JsonPaint::Text, JsonScan::InString)
    } else if ('0' <= c && c <= '9') || c == '-' {
        (JsonPaint::Number, JsonScan::InNumber)
    } else if 'a' <= c && c <= 'z' {
        (JsonPaint::Keyword, JsonScan::Outside)
    } else {
        (JsonPaint::Plain, JsonScan::Outside)
    }
}

/// The paint of `c` read in state `state`, and the state after it.
pub open spec fn paint_step(state: JsonScan, c: char) -> (JsonPaint, JsonScan) {
    match state {
        JsonScan::InString => if c == '\\' {
            (JsonPaint::Text, JsonScan::AfterEscape)
        } else if c == '"' {
            (JsonPaint::Text, JsonScan::Outside)
        } else {
            (JsonPaint::Text, JsonScan::InString)
        },
        JsonScan::AfterEscape => (JsonPaint::Text, JsonScan::InString),
        JsonScan::InNumber => if is_number_char(c) {
            (JsonPaint::Number, JsonScan::InNumber)
        } else {
            outside_step(c)
        },
        JsonScan::Outside => outside_step(c),
    }
}

/// The paints of `t[i..]`, read from state `state`.
pub open spec fn paints_from(t: Seq<char>, i: int, state: JsonScan) -> Seq<JsonPaint>
    decreases t.len() - i,
{
    if i < 0 || i >= t.len() {
        Seq::empty()
    } else {
        let (p, next) = paint_step(state, t[i]);
        seq![p] + paints_from(t, i + 1, next)
    }
}

/// The paint of each character of JSON text, read from its start.
pub open spec fn json_paint_of(t: Seq<char>) -> Seq<JsonPaint> {
    paints_from(t, 0, JsonScan::Outside)
}

proof fn lemma_paints_rest_of_string(t: Seq<char>, i: int)
    requires
        1 <= i <= t.len() - 1,
        t.last() == '"',
        forall|k: int| 1 <= k < t.len() - 1 ==> t[k] != '"' && t[k] != '\\',
    ensures
        paints_from(t, i, JsonScan::InString) =~= Seq::new((t.len() - i) as nat, |k: int| JsonPaint::Text),
    decreases t.len() - i,
{
    if i < t.len() - 1 {
        lemma_paints_rest_of_string(t, i + 1);
    } else {
        assert(paints_from(t, i + 1, JsonScan::Outside) =~= Seq::<JsonPaint>::empty());
    }
}

proof fn lemma_paints_rest_of_number(t: Seq<char>, i: int)
    requires
        0 <= i <= t.len(),
        forall|k: int| 0 <= k < t.len() ==> is_number_char(#[trigger] t[k]),
    ensures
        paints_from(t, i, JsonScan::InNumber) =~= Seq::new((t.len() - i) as nat, |k: int| JsonPaint::Number),
    decreases t.len() - i,
{
    if i < t.len() {
        lemma_paints_rest_of_number(t, i + 1);
    }
}

/// A JSON string, quotes included, is painted as text throughout, and a
/// number is painted as a number throughout.
pub proof fn lemma_strings_and_numbers_painted(body: Seq<char>, number: Seq<char>)
    requires
        forall|k: int| 0 <= k < body.len() ==> body[k] != '"' && body[k] != '\\',
        number.len() > 0,
        ('0' <= number[0] && number[0] <= '9') || number[0] == '-',
        forall|k: int| 0 <= k < number.len() ==> is_number_char(#[trigger] number[k]),
    ensures
        json_paint_of(seq!['"'] + body + seq!['"']) == Seq::new(body.len() + 2, |k: int| JsonPaint::Text),
        json_paint_of(number) == Seq::new(number.len(), |k: int| JsonPaint::Number),
{
    let t = seq!['"'] + body + seq!['"'];
    assert forall|k: int| 1 <= k < t.len() - 1 implies t[k] != '"' && t[k] != '\\' by {
        assert(t[k] == body[k - 1]);
    }
    lemma_paints_rest_of_string(t, 1);
    assert(json_paint_of(t) =~= Seq::new(body.len() + 2, |k: int| JsonPaint::Text));
    lemma_paints_rest_of_number(number, 1);
    assert(json_paint_of(number) =~= Seq::new(number.len(), |k: int| JsonPaint::Number));
}

fn step(state: JsonScan, c: char) -> (r: (JsonPaint, JsonScan))
    ensures
        r == paint_step(state, c),
{
    let from_outside = if c == '"' {
        (JsonPaint::Text, JsonScan::InString)
    } else if ('0' <= c && c <= '9') || c == '-' {
        (JsonPaint::Number, JsonScan::InNumber)
    } else if 'a' <= c && c <= 'z' {
        (JsonPaint::Keyword, JsonScan::Outside)
    } else {
        (JsonPaint::Plain, JsonScan::Outside)
    };
    match state {
        JsonScan::InString => if c == '\\' {
            (JsonPaint::Text, JsonScan::AfterEscape)
        } else if c == '"' {
            (JsonPaint::Text, JsonScan::Outside)
        } else {
            (JsonPaint::Text, JsonScan::InString)
        },
        JsonScan::AfterEscape => (JsonPaint::Text, JsonScan::InString),
        JsonScan::InNumber => if ('0' <= c && c <= '9') || c == '-' || c == '+' || c == '.' || c == 'e'
            || c == 'E' {
            (JsonPaint::Number, JsonScan::InNumber)
        } else {
            from_outside
        },
        JsonScan::Outside => from_outside,
    }
}

/// The paint of each character of `text`, for showing JSON in colour.
pub fn json_paints(text: &str) -> (r: Vec<JsonPaint>)
    ensures
        r@ == json_paint_of(text@),
        r.len() == text@.len(),
{
    let n = text.unicode_len();
    let mut r: Vec<JsonPaint> = Vec::new();
    let mut state = JsonScan::Outside;
    let mut i: usize = 0;
    while i < n
        invariant
            n == text@.len(),
            0 <= i <= n,
            r.len() == i,
            r@ + paints_from(text@, i as int, state) == json_paint_of(text@),
        decreases n - i,
    {
        let (p, next) = step(state, text.get_char(i));
        proof {
            assert(paints_from(text@, i as int, state) == seq![p] + paints_from(text@, i + 1, next));
            assert(r@.push(p) + paints_from(text@, i + 1, next) =~= r@ + paints_from(text@, i as int, state));
        }
        r.push(p);
        state = next;
        i = i + 1;
    }
    assert(paints_from(text@, n as int, state) =~= Seq::<JsonPaint>::empty());
    assert(r@ + Seq::<JsonPaint>::empty() =~= r@);
    r
}

} // verus!
