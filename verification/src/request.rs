//! Construction of one outgoing request: method, path, `Host`, the optional
//! `Content-Type`/`Content-Length` headers (in that fixed order), an
//! unconditional `Connection: close`, a blank line, and the body verbatim.

use vstd::prelude::*;

use crate::strutil::{dec_chars, u64_to_string};

verus! {

/// The request methods the client uses.
#[derive(Clone, Copy, Debug, PartialEq, Eq, Structural)]
pub enum Method {
    Get,
    Post,
    Delete,
}

/// The token a method is written as on the request line.
pub open spec fn method_chars(m: Method) -> Seq<char> {
    match m {
        Method::Get => seq!['G', 'E', 'T'],
        Method::Post => seq!['P', 'O', 'S', 'T'],
        Method::Delete => seq!['D', 'E', 'L', 'E', 'T', 'E'],
    }
}

/// The mathematical value of a [`RequestBuilder`].
#[verifier::ext_equal]
pub ghost struct RequestModel {
    pub method: Method,
    pub path: Option<Seq<char>>,
    pub host: Option<Seq<char>>,
    pub content_type: Option<Seq<char>>,
    pub content_length: Option<nat>,
    pub body: Option<Seq<char>>,
}

/// Accumulates the parts of a request; `build` emits the wire text. The
/// host is the one required part: `build` demands it up front, a missing
/// host being a programming error, not a runtime condition.
pub struct RequestBuilder {
    method: Method,
    path: Option<String>,
    host: Option<String>,
    content_type: Option<String>,
    content_length: Option<usize>,
    body: Option<String>,
}

impl View for RequestBuilder {
    type V = RequestModel;

    closed spec fn view(&self) -> RequestModel {
        RequestModel {
            method: self.method,
            path: match self.path {
                Some(ref p) => Some(p@),
                None => None,
            },
            host: match self.host {
                Some(ref h) => Some(h@),
                None => None,
            },
            content_type: match self.content_type {
                Some(ref c) => Some(c@),
                None => None,
            },
            content_length: match self.content_length {
                Some(n) => Some(n as nat),
                None => None,
            },
            body: match self.body {
                Some(ref b) => Some(b@),
                None => None,
            },
        }
    }
}

/// `"\r\n"`.
pub open spec fn crlf() -> Seq<char> {
    seq!['\r', '\n']
}

/// The path a request is built with: the one set, or `/`.
pub open spec fn spec_path_or_default(m: RequestModel) -> Seq<char> {
    match m.path {
        Some(p) => p,
        None => seq!['/'],
    }
}

/// `" HTTP/1.1"`, the fixed tail of the request line.
pub open spec fn http_version_tail() -> Seq<char> {
    seq![' ', 'H', 'T', 'T', 'P', '/', '1', '.', '1']
}

/// `"Host: "`.
pub open spec fn host_prefix() -> Seq<char> {
    seq!['H', 'o', 's', 't', ':', ' ']
}

/// `"Content-Type: "`.
pub open spec fn content_type_prefix() -> Seq<char> {
    seq!['C', 'o', 'n', 't', 'e', 'n', 't', '-', 'T', 'y', 'p', 'e', ':', ' ']
}

/// `"Content-Length: "`.
pub open spec fn content_length_prefix() -> Seq<char> {
    seq!['C', 'o', 'n', 't', 'e', 'n', 't', '-', 'L', 'e', 'n', 'g', 't', 'h', ':', ' ']
}

/// `"Connection: close"`.
pub open spec fn connection_close_line() -> Seq<char> {
    seq![
        'C',
        'o',
        'n',
        'n',
        'e',
        'c',
        't',
        'i',
        'o',
        'n',
        ':',
        ' ',
        'c',
        'l',
        'o',
        's',
        'e',
    ]
}

/// The full wire text `build` emits for a request with a host: request
/// line, `Host`, optional `Content-Type` then `Content-Length`, always
/// `Connection: close`, a blank line, then the body verbatim.
pub open spec fn spec_request_text(m: RequestModel) -> Seq<char> {
    method_chars(m.method) + seq![' '] + spec_path_or_default(m) + http_version_tail() + crlf()
        + host_prefix() + m.host->Some_0 + crlf() + (match m.content_type {
        Some(ct) => content_type_prefix() + ct + crlf(),
        None => Seq::<char>::empty(),
    }) + (match m.content_length {
        Some(n) => content_length_prefix() + dec_chars(n) + crlf(),
        None => Seq::<char>::empty(),
    }) + connection_close_line() + crlf() + crlf() + (match m.body {
        Some(b) => b,
        None => Seq::<char>::empty(),
    })
}

impl RequestBuilder {
    fn new(method: Method) -> (r: RequestBuilder)
        ensures
            r@ == (RequestModel {
                method,
                path: None,
                host: None,
                content_type: None,
                content_length: None,
                body: None,
            }),
    {
        RequestBuilder {
            method,
            path: None,
            host: None,
            content_type: None,
            content_length: None,
            body: None,
        }
    }

    /// A builder for a `GET` request.
    pub fn get() -> (r: RequestBuilder)
        ensures
            r@ == (RequestModel {
                method: Method::Get,
                path: None,
                host: None,
                content_type: None,
                content_length: None,
                body: None,
            }),
    {
        Self::new(Method::Get)
    }

    /// A builder for a `POST` request.
    pub fn post() -> (r: RequestBuilder)
        ensures
            r@ == (RequestModel {
                method: Method::Post,
                path: None,
                host: None,
                content_type: None,
                content_length: None,
                body: None,
            }),
    {
        Self::new(Method::Post)
    }

    /// A builder for a `DELETE` request.
    pub fn delete() -> (r: RequestBuilder)
        ensures
            r@ == (RequestModel {
                method: Method::Delete,
                path: None,
                host: None,
                content_type: None,
                content_length: None,
                body: None,
            }),
    {
        Self::new(Method::Delete)
    }

    /// Sets the request path (default `/`).
    pub fn path(self, path: String) -> (r: RequestBuilder)
        ensures
            r@ == (RequestModel { path: Some(path@), ..self@ }),
    {
        RequestBuilder { path: Some(path), ..self }
    }

    /// Sets the `Host` header value; required before `build`.
    pub fn host(self, host: String) -> (r: RequestBuilder)
        ensures
            r@ == (RequestModel { host: Some(host@), ..self@ }),
    {
        RequestBuilder { host: Some(host), ..self }
    }

    /// Sets the `Content-Type` header value.
    pub fn content_type(self, content_type: String) -> (r: RequestBuilder)
        ensures
            r@ == (RequestModel { content_type: Some(content_type@), ..self@ }),
    {
        RequestBuilder { content_type: Some(content_type), ..self }
    }

    /// Sets the `Content-Length` header value.
    pub fn content_length(self, content_length: usize) -> (r: RequestBuilder)
        ensures
            r@ == (RequestModel { content_length: Some(content_length as nat), ..self@ }),
    {
        RequestBuilder { content_length: Some(content_length), ..self }
    }

    /// Sets the body, appended verbatim after the blank line.
    pub fn body(self, body: String) -> (r: RequestBuilder)
        ensures
            r@ == (RequestModel { body: Some(body@), ..self@ }),
    {
        RequestBuilder { body: Some(body), ..self }
    }

    /// Emits the request text. The host must have been set; calling
    /// without one is a programming error the contract rules out.
    #[verifier::rlimit(60)]
    pub fn build(&self) -> (r: String)
        requires
            self@.host is Some,
        ensures
            r@ == spec_request_text(self@),
    {
        let mut r = String::new();
        match self.method {
            Method::Get => r.append("GET"),
            Method::Post => r.append("POST"),
            Method::Delete => r.append("DELETE"),
        }
        proof {
            reveal_strlit("GET");
            reveal_strlit("POST");
            reveal_strlit("DELETE");
            assert(r@ =~= method_chars(self@.method));
        }
        r.append(" ");
        match &self.path {
            Some(p) => r.append(p.as_str()),
            None => r.append("/"),
        }
        proof {
            reveal_strlit(" ");
            reveal_strlit("/");
            assert(r@ =~= method_chars(self@.method) + seq![' '] + spec_path_or_default(self@));
        }
        r.append(" HTTP/1.1\r\nHost: ");
        proof {
            reveal_strlit(" HTTP/1.1\r\nHost: ");
            assert((" HTTP/1.1\r\nHost: ")@ =~= http_version_tail() + crlf() + host_prefix());
        }
        match &self.host {
            Some(h) => r.append(h.as_str()),
            None => {
                proof {
                    assert(false);
                }
            },
        }
        r.append("\r\n");
        proof {
            reveal_strlit("\r\n");
            assert(("\r\n")@ =~= crlf());
            assert(r@ =~= method_chars(self@.method) + seq![' '] + spec_path_or_default(self@)
                + http_version_tail() + crlf() + host_prefix() + self@.host->Some_0 + crlf());
        }
        let ghost head = r@;
        match &self.content_type {
            Some(ct) => {
                r.append("Content-Type: ");
                r.append(ct.as_str());
                r.append("\r\n");
                proof {
                    reveal_strlit("Content-Type: ");
                    reveal_strlit("\r\n");
                    assert(("Content-Type: ")@ =~= content_type_prefix());
                    assert(r@ =~= head + (content_type_prefix() + self@.content_type->Some_0
                        + crlf()));
                }
            },
            None => {
                proof {
                    assert(r@ =~= head + Seq::<char>::empty());
                }
            },
        }
        let ghost head2 = r@;
        match &self.content_length {
            Some(n) => {
                r.append("Content-Length: ");
                let digits = u64_to_string(*n as u64);
                r.append(digits.as_str());
                r.append("\r\n");
                proof {
                    reveal_strlit("Content-Length: ");
                    reveal_strlit("\r\n");
                    assert(("Content-Length: ")@ =~= content_length_prefix());
                    assert(r@ =~= head2 + (content_length_prefix() + dec_chars(
                        self@.content_length->Some_0,
                    ) + crlf()));
                }
            },
            None => {
                proof {
                    assert(r@ =~= head2 + Seq::<char>::empty());
                }
            },
        }
        r.append("Connection: close\r\n\r\n");
        proof {
            reveal_strlit("Connection: close\r\n\r\n");
            assert(("Connection: close\r\n\r\n")@ =~= connection_close_line() + crlf() + crlf());
        }
        let ghost head3 = r@;
        match &self.body {
            Some(b) => r.append(b.as_str()),
            None => {},
        }
        proof {
            match self@.body {
                Some(b) => {
                    assert(r@ =~= head3 + b);
                },
                None => {
                    assert(r@ =~= head3 + Seq::<char>::empty());
                },
            }
            assert(r@ =~= spec_request_text(self@));
        }
        r
    }
}

} // verus!
