//! The request side of the wire format: the closed method enumeration, the
//! request line, and the parser that turns a raw byte buffer into a
//! structured request. Every parse failure is a value; nothing here panics.

use vstd::prelude::*;
use crate::ParseError;
use crate::bytes::{
    CR, LF, SP, copy_range, crlf_at, find_byte, find_byte_in, find_crlf, find_crlf_in, find_sep,
    find_sep_in, lemma_find_crlf_in, lemma_find_sep_in, sep_at,
};
use crate::message::{HeaderOut, HeaderSpec, Headers, MessageBody, headers_from_lines, line_views, ser_headers};

verus! {

/// The closed set of request methods.
#[derive(Clone, Copy, Debug, PartialEq, Eq, Structural)]
pub enum HttpMethod {
    GET,
    HEAD,
    POST,
    PUT,
    DELETE,
    CONNECT,
    OPTIONS,
    TRACE,
}

/// The wire bytes of each method token.
pub open spec fn method_bytes(m: HttpMethod) -> Seq<u8> {
    match m {
        HttpMethod::GET => seq![71u8, 69u8, 84u8],
        HttpMethod::HEAD => seq![72u8, 69u8, 65u8, 68u8],
        HttpMethod::POST => seq![80u8, 79u8, 83u8, 84u8],
        HttpMethod::PUT => seq![80u8, 85u8, 84u8],
        HttpMethod::DELETE => seq![68u8, 69u8, 76u8, 69u8, 84u8, 69u8],
        HttpMethod::CONNECT => seq![67u8, 79u8, 78u8, 78u8, 69u8, 67u8, 84u8],
        HttpMethod::OPTIONS => seq![79u8, 80u8, 84u8, 73u8, 79u8, 78u8, 83u8],
        HttpMethod::TRACE => seq![84u8, 82u8, 65u8, 67u8, 69u8],
    }
}

/// The method whose token is `s`, if any; compared by exact bytes.
pub open spec fn method_of(s: Seq<u8>) -> Option<HttpMethod> {
    if s == method_bytes(HttpMethod::GET) {
        Some(HttpMethod::GET)
    } else if s == method_bytes(HttpMethod::HEAD) {
        Some(HttpMethod::HEAD)
    } else if s == method_bytes(HttpMethod::POST) {
        Some(HttpMethod::POST)
    } else if s == method_bytes(HttpMethod::PUT) {
        Some(HttpMethod::PUT)
    } else if s == method_bytes(HttpMethod::DELETE) {
        Some(HttpMethod::DELETE)
    } else if s == method_bytes(HttpMethod::CONNECT) {
        Some(HttpMethod::CONNECT)
    } else if s == method_bytes(HttpMethod::OPTIONS) {
        Some(HttpMethod::OPTIONS)
    } else if s == method_bytes(HttpMethod::TRACE) {
        Some(HttpMethod::TRACE)
    } else {
        None
    }
}

/// Recognizes a method token.
pub fn method_from_bytes(tok: &Vec<u8>) -> (r: Option<HttpMethod>)
    ensures
        r == method_of(tok@),
{
    let n = tok.len();
    if n == 3 && tok[0] == 71 && tok[1] == 69 && tok[2] == 84 {
        proof {
            assert(tok@ =~= method_bytes(HttpMethod::GET));
        }
        Some(HttpMethod::GET)
    } else if n == 4 && tok[0] == 72 && tok[1] == 69 && tok[2] == 65 && tok[3] == 68 {
        proof {
            assert(tok@ =~= method_bytes(HttpMethod::HEAD));
        }
        Some(HttpMethod::HEAD)
    } else if n == 4 && tok[0] == 80 && tok[1] == 79 && tok[2] == 83 && tok[3] == 84 {
        proof {
            assert(tok@ =~= method_bytes(HttpMethod::POST));
        }
        Some(HttpMethod::POST)
    } else if n == 3 && tok[0] == 80 && tok[1] == 85 && tok[2] == 84 {
        proof {
            assert(tok@ =~= method_bytes(HttpMethod::PUT));
        }
        Some(HttpMethod::PUT)
    } else if n == 6 && tok[0] == 68 && tok[1] == 69 && tok[2] == 76 && tok[3] == 69 && tok[4]
        == 84 && tok[5] == 69 {
        proof {
            assert(tok@ =~= method_bytes(HttpMethod::DELETE));
        }
        Some(HttpMethod::DELETE)
    } else if n == 7 && tok[0] == 67 && tok[1] == 79 && tok[2] == 78 && tok[3] == 78 && tok[4]
        == 69 && tok[5] == 67 && tok[6] == 84 {
        proof {
            assert(tok@ =~= method_bytes(HttpMethod::CONNECT));
        }
        Some(HttpMethod::CONNECT)
    } else if n == 7 && tok[0] == 79 && tok[1] == 80 && tok[2] == 84 && tok[3] == 73 && tok[4]
        == 79 && tok[5] == 78 && tok[6] == 83 {
        proof {
            assert(tok@ =~= method_bytes(HttpMethod::OPTIONS));
        }
        Some(HttpMethod::OPTIONS)
    } else if n == 5 && tok[0] == 84 && tok[1] == 82 && tok[2] == 65 && tok[3] == 67 && tok[4]
        == 69 {
        proof {
            assert(tok@ =~= method_bytes(HttpMethod::TRACE));
        }
        Some(HttpMethod::TRACE)
    } else {
        None
    }
}

/// The wire token of a method, as owned bytes.
pub fn method_to_bytes(m: &HttpMethod) -> (r: Vec<u8>)
    ensures
        r@ == method_bytes(*m),
{
    let mut out: Vec<u8> = Vec::new();
    match m {
        HttpMethod::GET => {
            out.push(71);
            out.push(69);
            out.push(84);
        },
        HttpMethod::HEAD => {
            out.push(72);
            out.push(69);
            out.push(65);
            out.push(68);
        },
        HttpMethod::POST => {
            out.push(80);
            out.push(79);
            out.push(83);
            out.push(84);
        },
        HttpMethod::PUT => {
            out.push(80);
            out.push(85);
            out.push(84);
        },
        HttpMethod::DELETE => {
            out.push(68);
            out.push(69);
            out.push(76);
            out.push(69);
            out.push(84);
            out.push(69);
        },
        HttpMethod::CONNECT => {
            out.push(67);
            out.push(79);
            out.push(78);
            out.push(78);
            out.push(69);
            out.push(67);
            out.push(84);
        },
        HttpMethod::OPTIONS => {
            out.push(79);
            out.push(80);
            out.push(84);
            out.push(73);
            out.push(79);
            out.push(78);
            out.push(83);
        },
        HttpMethod::TRACE => {
            out.push(84);
            out.push(82);
            out.push(65);
            out.push(67);
            out.push(69);
        },
    }
    proof {
        assert(out@ =~= method_bytes(*m));
    }
    out
}

/// Outcome of reading a request line.
pub enum LineOut {
    /// Not exactly three space-separated tokens.
    Bad,
    /// Three tokens, but the first is no known method; carries that token.
    Unsupported(Seq<u8>),
    /// Method, request target, and version.
    Good(HttpMethod, Seq<u8>, Seq<u8>),
}

/// Splits a request line on single spaces: it must hold exactly three
/// tokens, and the first must be a known method token.
pub open spec fn parse_request_line(line: Seq<u8>) -> LineOut {
    let n = line.len() as int;
    match find_byte_in(line, 0, n, SP) {
        None => LineOut::Bad,
        Some(s1) => match find_byte_in(line, s1 + 1, n, SP) {
            None => LineOut::Bad,
            Some(s2) => if find_byte_in(line, s2 + 1, n, SP) is Some {
                LineOut::Bad
            } else {
                let tok0 = line.subrange(0, s1);
                match method_of(tok0) {
                    None => LineOut::Unsupported(tok0),
                    Some(m) => LineOut::Good(m, line.subrange(s1 + 1, s2), line.subrange(s2 + 1, n)),
                }
            },
        },
    }
}

/// The parsed first line of a request: method, opaque target, opaque version.
#[derive(Debug)]
pub struct RequestLine {
    pub method: HttpMethod,
    pub request_uri: Vec<u8>,
    pub http_version: Vec<u8>,
}

impl RequestLine {
    /// Parses a request line; three tokens are required and the first must
    /// be in the closed method set.
    pub fn new(line: &Vec<u8>) -> (r: Result<RequestLine, ParseError>)
        ensures
            match r {
                Ok(rl) => parse_request_line(line@) == LineOut::Good(
                    rl.method,
                    rl.request_uri@,
                    rl.http_version@,
                ),
                Err(e) => match e {
                    ParseError::MalformedRequestLine => parse_request_line(line@) is Bad,
                    ParseError::UnsupportedMethod(t) => parse_request_line(line@)
                        == LineOut::Unsupported(t@),
                    _ => false,
                },
            },
    {
        let n = line.len();
        let s1 = match find_byte(line, 0, n, SP) {
            None => {
                return Err(ParseError::MalformedRequestLine);
            },
            Some(q) => q,
        };
        let s2 = match find_byte(line, s1 + 1, n, SP) {
            None => {
                return Err(ParseError::MalformedRequestLine);
            },
            Some(q) => q,
        };
        match find_byte(line, s2 + 1, n, SP) {
            Some(_) => Err(ParseError::MalformedRequestLine),
            None => {
                let tok0 = copy_range(line, 0, s1);
                match method_from_bytes(&tok0) {
                    None => Err(ParseError::UnsupportedMethod(tok0)),
                    Some(m) => Ok(
                        RequestLine {
                            method: m,
                            request_uri: copy_range(line, s1 + 1, s2),
                            http_version: copy_range(line, s2 + 1, n),
                        },
                    ),
                }
            },
        }
    }
}

/// Outcome of parsing a whole request buffer; the specification the
/// executable parser is proved against.
pub enum ParseOut {
    /// No blank-line separator in the observed bytes.
    Incomplete,
    /// The request line is not three tokens.
    BadRequestLine,
    /// Unknown method token.
    BadMethod(Seq<u8>),
    /// A header line without a colon.
    BadHeader(Seq<u8>),
    /// Method, target, version, header entries, body bytes.
    Parsed(HttpMethod, Seq<u8>, Seq<u8>, Seq<HeaderSpec>, Seq<u8>),
}

/// The header section `s[pos..sep]` split into lines on CRLF. `sep` is the
/// position of the blank-line separator, so a CRLF is always in range.
pub open spec fn split_lines(s: Seq<u8>, pos: int, sep: int) -> Seq<Seq<u8>>
    decreases sep + 2 - pos,
{
    match find_crlf_in(s, pos, sep + 2) {
        None => Seq::empty(),
        Some(q) => if q < pos || sep <= q {
            seq![s.subrange(pos, q)]
        } else {
            seq![s.subrange(pos, q)] + split_lines(s, q + 2, sep)
        },
    }
}

/// What parsing the byte sequence `s` yields: the first blank-line
/// separator bounds the header section; the section splits into lines; the
/// first line is the request line, the rest are header fields; everything
/// after the separator is the body.
pub open spec fn parse_outcome(s: Seq<u8>) -> ParseOut {
    match find_sep_in(s, 0, s.len() as int) {
        None => ParseOut::Incomplete,
        Some(sep) => {
            let lines = split_lines(s, 0, sep);
            if lines.len() == 0 {
                ParseOut::Incomplete
            } else {
                let body = s.subrange(sep + 4, s.len() as int);
                match parse_request_line(lines[0]) {
                    LineOut::Bad => ParseOut::BadRequestLine,
                    LineOut::Unsupported(t) => ParseOut::BadMethod(t),
                    LineOut::Good(m, u, v) => match headers_from_lines(
                        lines.drop_first(),
                        Seq::empty(),
                    ) {
                        HeaderOut::Bad(l) => ParseOut::BadHeader(l),
                        HeaderOut::Good(hs) => ParseOut::Parsed(m, u, v, hs, body),
                    },
                }
            }
        },
    }
}

/// The wire bytes of a request: request line, CRLF, header block, blank
/// CRLF, then the raw body with nothing appended.
pub open spec fn request_text(
    m: HttpMethod,
    u: Seq<u8>,
    v: Seq<u8>,
    hs: Seq<HeaderSpec>,
    b: Seq<u8>,
) -> Seq<u8> {
    method_bytes(m) + seq![SP] + u + seq![SP] + v + seq![CR, LF] + ser_headers(hs) + seq![CR, LF]
        + b
}

/// A parsed request: request line, header map, body bytes.
#[derive(Debug)]
pub struct HttpRequest {
    pub request_line: RequestLine,
    pub headers: Headers,
    pub message: MessageBody,
}

impl HttpRequest {
    /// Parses the first `actual_length` bytes of `buffer`; bytes beyond
    /// that are never observed. The result is exactly what `parse_outcome`
    /// says for the observed bytes, with each failure mapped to its error.
    pub fn new(buffer: &Vec<u8>, actual_length: usize) -> (r: Result<HttpRequest, ParseError>)
        requires
            actual_length <= buffer.len(),
        ensures
            ({
                let out = parse_outcome(buffer@.take(actual_length as int));
                match r {
                    Ok(req) => out == ParseOut::Parsed(
                        req.request_line.method,
                        req.request_line.request_uri@,
                        req.request_line.http_version@,
                        req.headers@,
                        req.message@,
                    ),
                    Err(e) => match e {
                        ParseError::IncompleteRequest => out is Incomplete,
                        ParseError::MalformedRequestLine => out is BadRequestLine,
                        ParseError::UnsupportedMethod(t) => out == ParseOut::BadMethod(t@),
                        ParseError::MalformedHeader(l) => out == ParseOut::BadHeader(l@),
                    },
                }
            }),
    {
        let observed = copy_range(buffer, 0, actual_length);
        let ghost s = observed@;
        proof {
            assert(s =~= buffer@.take(actual_length as int));
        }
        let n = observed.len();
        let sep = match find_sep(&observed, 0, n) {
            None => {
                return Err(ParseError::IncompleteRequest);
            },
            Some(q) => q,
        };
        proof {
            lemma_find_sep_in(s, 0, s.len() as int);
        }
        let q0 = match find_crlf(&observed, 0, sep + 2) {
            None => {
                proof {
                    lemma_find_crlf_in(s, 0, sep + 2);
                    assert(crlf_at(s, sep as int));
                    assert(false);
                }
                return Err(ParseError::IncompleteRequest);
            },
            Some(q) => q,
        };
        proof {
            lemma_find_crlf_in(s, 0, sep + 2);
            if q0 + 1 == sep {
                assert(s[q0 + 1] == LF && s[sep as int] == CR);
                assert(false);
            }
        }
        let rl_line = copy_range(&observed, 0, q0);
        let mut header_lines: Vec<Vec<u8>> = Vec::new();
        if q0 < sep {
            let mut pos: usize = q0 + 2;
            loop
                invariant_except_break
                    observed@ == s,
                    sep_at(s, sep as int),
                    sep + 4 <= observed.len(),
                    q0 + 2 <= pos <= sep,
                    split_lines(s, 0, sep as int) == seq![rl_line@] + line_views(header_lines@)
                        + split_lines(s, pos as int, sep as int),
                ensures
                    split_lines(s, 0, sep as int) == seq![rl_line@] + line_views(header_lines@),
                decreases sep - pos,
            {
                let q = match find_crlf(&observed, pos, sep + 2) {
                    None => {
                        proof {
                            lemma_find_crlf_in(s, pos as int, sep + 2);
                            assert(crlf_at(s, sep as int));
                            assert(false);
                        }
                        return Err(ParseError::IncompleteRequest);
                    },
                    Some(q) => q,
                };
                proof {
                    lemma_find_crlf_in(s, pos as int, sep + 2);
                    if q + 1 == sep {
                        assert(s[q + 1] == LF && s[sep as int] == CR);
                        assert(false);
                    }
                }
                let line = copy_range(&observed, pos, q);
                header_lines.push(line);
                proof {
                    assert(line_views(header_lines@) =~= line_views(
                        header_lines@.drop_last(),
                    ).push(line@));
                    if q == sep {
                        assert(split_lines(s, pos as int, sep as int) == seq![
                            s.subrange(pos as int, q as int),
                        ]);
                        assert(seq![rl_line@] + line_views(header_lines@.drop_last()) + (seq![
                            line@,
                        ]) =~= seq![rl_line@] + line_views(header_lines@));
                    } else {
                        assert(split_lines(s, pos as int, sep as int) == seq![
                            s.subrange(pos as int, q as int),
                        ] + split_lines(s, q + 2, sep as int));
                        assert(seq![rl_line@] + line_views(header_lines@.drop_last()) + (seq![
                            line@,
                        ] + split_lines(s, q + 2, sep as int)) =~= seq![rl_line@] + line_views(
                            header_lines@,
                        ) + split_lines(s, q + 2, sep as int));
                    }
                }
                if q == sep {
                    break ;
                }
                pos = q + 2;
            }
        } else {
            proof {
                assert(q0 == sep);
                assert(split_lines(s, 0, sep as int) == seq![s.subrange(0, q0 as int)]);
                assert(line_views(header_lines@) =~= Seq::<Seq<u8>>::empty());
                assert(split_lines(s, 0, sep as int) =~= seq![rl_line@] + line_views(
                    header_lines@,
                ));
            }
        }
        let ghost lines = split_lines(s, 0, sep as int);
        proof {
            assert(lines[0] == rl_line@);
            assert(lines.drop_first() =~= line_views(header_lines@));
        }
        let request_line = match RequestLine::new(&rl_line) {
            Err(e) => {
                return Err(e);
            },
            Ok(rl) => rl,
        };
        let headers = match Headers::new(header_lines) {
            Err(e) => {
                return Err(e);
            },
            Ok(h) => h,
        };
        let body = copy_range(&observed, sep + 4, n);
        let message = MessageBody::new(body);
        Ok(HttpRequest { request_line, headers, message })
    }

    /// Serializes the request back to wire bytes: request line, CRLF, one
    /// line per header in entry order, a blank CRLF, then the raw body.
    pub fn to_text(&self) -> (r: Vec<u8>)
        ensures
            r@ == request_text(
                self.request_line.method,
                self.request_line.request_uri@,
                self.request_line.http_version@,
                self.headers@,
                self.message@,
            ),
    {
        let mut out = method_to_bytes(&self.request_line.method);
        out.push(SP);
        proof {
            assert(out@ =~= method_bytes(self.request_line.method) + seq![SP]);
        }
        crate::bytes::push_all(&mut out, &self.request_line.request_uri);
        out.push(SP);
        proof {
            assert(out@ =~= method_bytes(self.request_line.method) + seq![SP]
                + self.request_line.request_uri@ + seq![SP]);
        }
        crate::bytes::push_all(&mut out, &self.request_line.http_version);
        out.push(CR);
        out.push(LF);
        proof {
            assert(out@ =~= method_bytes(self.request_line.method) + seq![SP]
                + self.request_line.request_uri@ + seq![SP] + self.request_line.http_version@
                + seq![CR, LF]);
        }
        let block = self.headers.to_text();
        crate::bytes::push_all(&mut out, &block);
        out.push(CR);
        out.push(LF);
        proof {
            assert(out@ =~= method_bytes(self.request_line.method) + seq![SP]
                + self.request_line.request_uri@ + seq![SP] + self.request_line.http_version@
                + seq![CR, LF] + ser_headers(self.headers@) + seq![CR, LF]);
        }
        crate::bytes::push_all(&mut out, &self.message.message_body);
        out
    }
}

} // verus!
