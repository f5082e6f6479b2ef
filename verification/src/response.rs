//! Parsing of one incoming response from the bytes read off a socket:
//! a status line, header lines up to a blank line or the end of the stream,
//! a body framed by the first `Content-Length` header (case-insensitive),
//! and UTF-8 decoding of exactly that many body bytes.

use vstd::prelude::*;
use vstd::utf8::{decode_utf8, valid_utf8};

use crate::strutil::{
    chars_to_string, dec_value, eq_ignore_case, find_char, find_char_at, is_space, is_space_char,
    is_uint_in_range, lemma_find_char, parse_uint, spec_trim, spec_uint_digits, trim_chars,
};

verus! {

/// The bytes of a stream read as characters, one per byte, as the header
/// lines are compared: ASCII bytes are themselves, others never match any
/// ASCII token and are carried through unchanged.
pub open spec fn latin1(bytes: Seq<u8>) -> Seq<char> {
    bytes.map_values(|b: u8| b as char)
}

/// The mathematical value of an [`HttpError`].
#[verifier::ext_equal]
pub ghost enum HttpErrorModel {
    InvalidContentLength { value: Seq<char> },
    BodyUtf8,
    UnexpectedEof,
    HttpStatus { code: u16 },
}

/// A transport-level failure: a malformed `Content-Length` value, a body
/// that is not UTF-8, a stream that ended before the declared body did, or
/// a response status outside the 2xx range.
#[derive(Debug)]
pub enum HttpError {
    InvalidContentLength { value: String },
    BodyUtf8,
    UnexpectedEof,
    HttpStatus { code: u16 },
}

impl View for HttpError {
    type V = HttpErrorModel;

    open spec fn view(&self) -> HttpErrorModel {
        match self {
            HttpError::InvalidContentLength { value } => HttpErrorModel::InvalidContentLength {
                value: value@,
            },
            HttpError::BodyUtf8 => HttpErrorModel::BodyUtf8,
            HttpError::UnexpectedEof => HttpErrorModel::UnexpectedEof,
            HttpError::HttpStatus { code } => HttpErrorModel::HttpStatus { code: *code },
        }
    }
}

impl HttpError {
    /// The diagnostic line shown for the failure.
    pub fn message(&self) -> (r: String)
        ensures
            r@ == (match self@ {
                HttpErrorModel::InvalidContentLength { value } => ("Ungültige Länge '")@ + value
                    + ("'.")@,
                HttpErrorModel::BodyUtf8 => ("Nicht gültiges UTF8.")@,
                HttpErrorModel::UnexpectedEof => (
                "Unerwartetes Ende der Verbindung - Antwort unvollständig.")@,
                HttpErrorModel::HttpStatus { code } => ("Backend antwortet mit HTTP ")@
                    + crate::strutil::dec_chars(code as nat) + (".")@,
            }),
    {
        match self {
            HttpError::InvalidContentLength { value } => {
                let mut r = String::from_str("Ungültige Länge '");
                r.append(value.as_str());
                r.append("'.");
                r
            },
            HttpError::BodyUtf8 => String::from_str("Nicht gültiges UTF8."),
            HttpError::UnexpectedEof => String::from_str(
                "Unerwartetes Ende der Verbindung - Antwort unvollständig.",
            ),
            HttpError::HttpStatus { code } => {
                let mut r = String::from_str("Backend antwortet mit HTTP ");
                let digits = crate::strutil::u64_to_string(*code as u64);
                r.append(digits.as_str());
                r.append(".");
                r
            },
        }
    }
}

/// `"content-length"`, the one header name the parser consults.
pub open spec fn content_length_name() -> Seq<char> {
    seq!['c', 'o', 'n', 't', 'e', 'n', 't', '-', 'l', 'e', 'n', 'g', 't', 'h']
}

/// Whether a trimmed header line names `content-length`, case-insensitively:
/// the part before the first `:` is compared.
pub open spec fn is_content_length_line(line: Seq<char>) -> bool {
    find_char(line, ':') < line.len() && eq_ignore_case(
        line.take(find_char(line, ':')),
        content_length_name(),
    )
}

/// The trimmed value text after the `:` of a header line.
pub open spec fn header_value(line: Seq<char>) -> Seq<char> {
    spec_trim(line.skip(find_char(line, ':') + 1))
}

/// What the header section declares the body length to be.
#[verifier::ext_equal]
pub ghost enum BodyLength {
    /// No `Content-Length` header before the blank line or the stream end.
    Absent,
    /// The first `Content-Length` header's parsed value.
    Given(nat),
    /// The first `Content-Length` header's value does not parse; its raw
    /// trimmed text.
    Bad(Seq<char>),
}

/// Scans lines from `pos` for the first `Content-Length` header, stopping
/// at a line that trims to nothing (end of headers) or at the stream end.
pub open spec fn scan_content_length(t: Seq<char>, pos: int) -> BodyLength
    decreases t.len() - pos,
{
    if pos < 0 || pos >= t.len() {
        BodyLength::Absent
    } else {
        let f = find_char(t.skip(pos), '\n');
        let e = if 0 <= f <= t.len() - pos {
            pos + f
        } else {
            t.len() as int
        };
        let line = spec_trim(t.subrange(pos, e));
        if line.len() == 0 {
            BodyLength::Absent
        } else if is_content_length_line(line) {
            let v = header_value(line);
            if is_uint_in_range(v, usize::MAX as nat) {
                BodyLength::Given(dec_value(spec_uint_digits(v)))
            } else {
                BodyLength::Bad(v)
            }
        } else if e >= t.len() {
            BodyLength::Absent
        } else {
            scan_content_length(t, e + 1)
        }
    }
}

/// Where the body starts: the position just past the blank line that ends
/// the headers, or the stream end if the stream ends first.
pub open spec fn headers_end(t: Seq<char>, pos: int) -> int
    decreases t.len() - pos,
{
    if pos < 0 || pos >= t.len() {
        t.len() as int
    } else {
        let f = find_char(t.skip(pos), '\n');
        let e = if 0 <= f <= t.len() - pos {
            pos + f
        } else {
            t.len() as int
        };
        let line = spec_trim(t.subrange(pos, e));
        if line.len() == 0 {
            if e + 1 <= t.len() {
                e + 1
            } else {
                t.len() as int
            }
        } else if e >= t.len() {
            t.len() as int
        } else {
            headers_end(t, e + 1)
        }
    }
}

/// What [`parse_http_response_body`] returns for the bytes of a response.
/// A missing `Content-Length` means an empty body, not an error; a stream
/// shorter than the declared length is an unexpected end of stream, never a
/// truncated success.
pub open spec fn spec_parse_response_body(bytes: Seq<u8>) -> Result<Seq<char>, HttpErrorModel> {
    let t = latin1(bytes);
    match scan_content_length(t, 0) {
        BodyLength::Bad(v) => Err(HttpErrorModel::InvalidContentLength { value: v }),
        BodyLength::Absent => Ok(Seq::<char>::empty()),
        BodyLength::Given(n) => if n == 0 {
            Ok(Seq::<char>::empty())
        } else {
            let start = headers_end(t, 0);
            if start + n > bytes.len() {
                Err(HttpErrorModel::UnexpectedEof)
            } else {
                let body = bytes.subrange(start, start + n);
                if valid_utf8(body) {
                    Ok(decode_utf8(body))
                } else {
                    Err(HttpErrorModel::BodyUtf8)
                }
            }
        },
    }
}

/// Relies on String::from_utf8: succeeds exactly on valid UTF-8 and then
/// holds those bytes decoded.
#[verifier::external_body]
pub fn utf8_to_string(v: Vec<u8>) -> (r: Option<String>)
    ensures
        r is Some <==> valid_utf8(v@),
        r is Some ==> r->0@ == decode_utf8(v@),
{
    match String::from_utf8(v) {
        Ok(s) => Some(s),
        Err(_) => None,
    }
}

/// The characters of a byte slice, one per byte.
fn latin1_chars(v: &[u8]) -> (r: Vec<char>)
    ensures
        r@ == latin1(v@),
{
    let n: usize = v.len();
    let mut r: Vec<char> = Vec::new();
    let mut i: usize = 0;
    while i < n
        invariant
            i <= n,
            n == v@.len(),
            r@ == latin1(v@.subrange(0, i as int)),
        decreases n - i,
    {
        r.push(v[i] as char);
        i = i + 1;
        proof {
            assert(r@ =~= latin1(v@.subrange(0, i as int)));
        }
    }
    proof {
        assert(v@.subrange(0, n as int) =~= v@);
    }
    r
}

/// Reads a response from the bytes of a stream: skips the status line and
/// headers, frames the body by the first `Content-Length` header, and
/// decodes it as UTF-8.
pub fn parse_http_response_body(input: &[u8]) -> (r: Result<String, HttpError>)
    ensures
        r is Ok <==> spec_parse_response_body(input@) is Ok,
        r is Ok ==> r->Ok_0@ == spec_parse_response_body(input@)->Ok_0,
        r is Err ==> r->Err_0@ == spec_parse_response_body(input@)->Err_0,
{
    let t = latin1_chars(input);
    let ghost tv = latin1(input@);
    let n: usize = t.len();
    let mut pos: usize = 0;
    let mut content_length: Option<usize> = None;
    let mut body_start: usize = n;
    loop
        invariant
            pos <= n,
            n == tv.len() == input@.len(),
            tv == latin1(input@),
            t@ == tv,
            scan_content_length(tv, 0) == (match content_length {
                Some(m) => BodyLength::Given(m as nat),
                None => scan_content_length(tv, pos as int),
            }),
            headers_end(tv, 0) == headers_end(tv, pos as int),
        ensures
            n == tv.len() == input@.len(),
            t@ == tv,
            body_start <= n,
            scan_content_length(tv, 0) == (match content_length {
                Some(m) => BodyLength::Given(m as nat),
                None => BodyLength::Absent,
            }),
            headers_end(tv, 0) == body_start as int,
        decreases n - pos,
    {
        if pos >= n {
            proof {
                assert(tv.skip(pos as int).len() == 0);
            }
            body_start = n;
            break ;
        }
        let rest = vstd::slice::slice_subrange(t.as_slice(), pos, n);
        let f = find_char_at(rest, '\n');
        proof {
            assert(rest@ =~= tv.skip(pos as int));
            lemma_find_char(rest@, '\n');
        }
        let e = pos + f;
        let line_raw = vstd::slice::slice_subrange(t.as_slice(), pos, e);
        let line = trim_chars(line_raw);
        proof {
            assert(line_raw@ =~= tv.subrange(pos as int, e as int));
        }
        if line.len() == 0 {
            if e < n {
                body_start = e + 1;
            } else {
                body_start = n;
            }
            break ;
        }
        let colon = find_char_at(line.as_slice(), ':');
        proof {
            lemma_find_char(line@, ':');
        }
        let mut matched: bool = false;
        if colon < line.len() {
            let name = vstd::slice::slice_subrange(line.as_slice(), 0, colon);
            let cl_name: [char; 14] = [
                'c',
                'o',
                'n',
                't',
                'e',
                'n',
                't',
                '-',
                'l',
                'e',
                'n',
                'g',
                't',
                'h',
            ];
            proof {
                assert(cl_name@ =~= content_length_name());
                assert(name@ =~= line@.take(colon as int));
            }
            matched = crate::strutil::chars_eq_ignore_case(name, cl_name.as_slice());
        }
        if matched && content_length.is_none() {
            let after = vstd::slice::slice_subrange(line.as_slice(), colon + 1, line.len());
            let value = trim_chars(after);
            proof {
                assert(after@ =~= line@.skip(colon + 1));
                assert(value@ == header_value(line@));
            }
            match parse_uint(value.as_slice(), usize::MAX as u64) {
                Some(v) => {
                    content_length = Some(v as usize);
                    proof {
                        assert(scan_content_length(tv, pos as int) == BodyLength::Given(v as nat));
                    }
                },
                None => {
                    proof {
                        assert(scan_content_length(tv, pos as int) == BodyLength::Bad(value@));
                        assert(spec_parse_response_body(input@) == Err::<Seq<char>, HttpErrorModel>(
                            HttpErrorModel::InvalidContentLength { value: value@ },
                        ));
                    }
                    return Err(
                        HttpError::InvalidContentLength { value: chars_to_string(value.as_slice()) },
                    );
                },
            }
        } else {
            proof {
                if content_length is None {
                    if is_content_length_line(line@) {
                        assert(matched);
                    }
                    if e < n {
                        assert(scan_content_length(tv, pos as int) == scan_content_length(
                            tv,
                            e + 1,
                        ));
                    }
                }
                if e < n {
                    assert(headers_end(tv, pos as int) == headers_end(tv, e + 1));
                }
            }
        }
        if e >= n {
            proof {
                assert(e == n);
                assert(headers_end(tv, pos as int) == n as int);
                if content_length is None {
                    assert(scan_content_length(tv, pos as int) == BodyLength::Absent);
                }
            }
            body_start = n;
            break ;
        }
        pos = e + 1;
    }
    let len: usize = match content_length {
        Some(m) => m,
        None => 0,
    };
    if len == 0 {
        proof {
            assert(spec_parse_response_body(input@) is Ok);
            assert(spec_parse_response_body(input@)->Ok_0 =~= Seq::<char>::empty());
        }
        return Ok(String::new());
    }
    if len > input.len() - body_start {
        return Err(HttpError::UnexpectedEof);
    }
    let body_bytes = vstd::slice::slice_to_vec(
        vstd::slice::slice_subrange(input, body_start, body_start + len),
    );
    proof {
        assert(body_bytes@ =~= input@.subrange(body_start as int, body_start + len));
    }
    match utf8_to_string(body_bytes) {
        Some(s) => Ok(s),
        None => Err(HttpError::BodyUtf8),
    }
}

/// The position of the first non-whitespace character at or after `i`.
pub open spec fn skip_spaces(s: Seq<char>, i: int) -> int
    decreases s.len() - i,
{
    if i < 0 || i >= s.len() {
        s.len() as int
    } else if is_space_char(s[i]) {
        skip_spaces(s, i + 1)
    } else {
        i
    }
}

/// The position of the first whitespace character at or after `i`.
pub open spec fn skip_token(s: Seq<char>, i: int) -> int
    decreases s.len() - i,
{
    if i < 0 || i >= s.len() {
        s.len() as int
    } else if !is_space_char(s[i]) {
        skip_token(s, i + 1)
    } else {
        i
    }
}

proof fn lemma_skip_spaces_is(s: Seq<char>, i: int, r: int)
    requires
        0 <= i <= r <= s.len(),
        forall|j: int| i <= j < r ==> is_space_char(s[j]),
        r < s.len() ==> !is_space_char(s[r]),
    ensures
        skip_spaces(s, i) == r,
    decreases r - i,
{
    if i < r {
        lemma_skip_spaces_is(s, i + 1, r);
    }
}

proof fn lemma_skip_token_is(s: Seq<char>, i: int, r: int)
    requires
        0 <= i <= r <= s.len(),
        forall|j: int| i <= j < r ==> !is_space_char(s[j]),
        r < s.len() ==> is_space_char(s[r]),
    ensures
        skip_token(s, i) == r,
    decreases r - i,
{
    if i < r {
        lemma_skip_token_is(s, i + 1, r);
    }
}

/// The second whitespace-delimited token of a line, if there is one.
pub open spec fn spec_second_token(line: Seq<char>) -> Option<Seq<char>> {
    let a = skip_spaces(line, 0);
    let b = skip_token(line, a);
    let c = skip_spaces(line, b);
    let d = skip_token(line, c);
    if c < line.len() {
        Some(line.subrange(c, d))
    } else {
        None
    }
}

/// The status code of a response: the second whitespace-delimited token of
/// its first line read as a 16-bit unsigned integer, or 0 where that token
/// is absent or does not parse — 0 is the caller's failure mark, distinct
/// from every genuine status.
pub open spec fn spec_status_code(bytes: Seq<u8>) -> u16 {
    let t = latin1(bytes);
    let f = find_char(t, '\n');
    let line = if 0 <= f <= t.len() {
        t.take(f)
    } else {
        t
    };
    match spec_second_token(line) {
        None => 0u16,
        Some(tok) => if is_uint_in_range(tok, u16::MAX as nat) {
            dec_value(spec_uint_digits(tok)) as u16
        } else {
            0u16
        },
    }
}

/// The position of the first non-whitespace character at or after `from`.
fn find_nonspace_at(v: &[char], from: usize) -> (r: usize)
    requires
        from <= v@.len(),
    ensures
        r as int == skip_spaces(v@, from as int),
        from <= r <= v@.len(),
{
    let n: usize = v.len();
    let mut i: usize = from;
    while i < n && is_space(v[i])
        invariant
            from <= i <= n,
            n == v@.len(),
            forall|j: int| from <= j < i ==> is_space_char(v@[j]),
        decreases n - i,
    {
        i = i + 1;
    }
    proof {
        lemma_skip_spaces_is(v@, from as int, i as int);
    }
    i
}

/// The position of the first whitespace character at or after `from`.
fn find_space_at(v: &[char], from: usize) -> (r: usize)
    requires
        from <= v@.len(),
    ensures
        r as int == skip_token(v@, from as int),
        from <= r <= v@.len(),
{
    let n: usize = v.len();
    let mut i: usize = from;
    while i < n && !is_space(v[i])
        invariant
            from <= i <= n,
            n == v@.len(),
            forall|j: int| from <= j < i ==> !is_space_char(v@[j]),
        decreases n - i,
    {
        i = i + 1;
    }
    proof {
        lemma_skip_token_is(v@, from as int, i as int);
    }
    i
}

/// Reads the status code off the first line of a response: the second
/// whitespace-delimited token as a `u16`, or 0 when absent or malformed.
pub fn http_read_status(input: &[u8]) -> (r: u16)
    ensures
        r == spec_status_code(input@),
{
    let t = latin1_chars(input);
    let ghost tv = latin1(input@);
    let f = find_char_at(t.as_slice(), '\n');
    proof {
        lemma_find_char(tv, '\n');
    }
    let line = vstd::slice::slice_subrange(t.as_slice(), 0, f);
    proof {
        assert(line@ =~= tv.take(f as int));
    }
    let a = find_nonspace_at(line, 0);
    let b = find_space_at(line, a);
    let c = find_nonspace_at(line, b);
    if c >= line.len() {
        return 0;
    }
    let d = find_space_at(line, c);
    let tok = vstd::slice::slice_subrange(line, c, d);
    proof {
        assert(tok@ =~= line@.subrange(c as int, d as int));
    }
    match parse_uint(tok, 0xffffu64) {
        Some(v) => v as u16,
        None => 0,
    }
}

/// Accepts exactly the 2xx status codes; any other code, 0 included, is the
/// typed status failure carrying that code.
pub fn ensure_success_code(code: u16) -> (r: Result<(), HttpError>)
    ensures
        r is Ok <==> 200 <= code < 300,
        r is Err ==> r->Err_0@ == (HttpErrorModel::HttpStatus { code }),
{
    if 200 <= code && code < 300 {
        Ok(())
    } else {
        Err(HttpError::HttpStatus { code })
    }
}

} // verus!
