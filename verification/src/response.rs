//! The response side of the wire format: the status registry mapping
//! numeric codes to canonical reason phrases, the status line, and the
//! byte-exact response serializer.

use vstd::prelude::*;
use crate::StatusError;
use crate::bytes::{CR, LF, SP, copy_range, push_all};
use crate::message::{Headers, MessageBody, ser_headers};

verus! {

/// The reason phrase "OK".
pub open spec fn ok_reason() -> Seq<u8> {
    seq![79u8, 75u8]
}

/// The reason phrase "Not Found".
pub open spec fn not_found_reason() -> Seq<u8> {
    seq![78u8, 111u8, 116u8, 32u8, 70u8, 111u8, 117u8, 110u8, 100u8]
}

/// The version token "HTTP/1.1" that serialized responses carry.
pub open spec fn http_version_bytes() -> Seq<u8> {
    seq![72u8, 84u8, 84u8, 80u8, 47u8, 49u8, 46u8, 49u8]
}

/// The reasons registered out of the box: 200 and 404.
pub open spec fn default_reason(code: u16) -> Option<Seq<u8>> {
    if code == 200 {
        Some(ok_reason())
    } else if code == 404 {
        Some(not_found_reason())
    } else {
        None
    }
}

/// The decimal digits of `n`, most significant first.
pub open spec fn dec_rep(n: nat) -> Seq<u8>
    decreases n,
{
    if n < 10 {
        seq![(48 + n) as u8]
    } else {
        dec_rep(n / 10).push((48 + n % 10) as u8)
    }
}

/// Formats a status code in decimal.
pub fn u16_to_dec(n: u16) -> (r: Vec<u8>)
    ensures
        r@ == dec_rep(n as nat),
{
    proof {
        reveal_with_fuel(dec_rep, 6);
    }
    let mut out: Vec<u8> = Vec::new();
    if n < 10 {
        out.push(48 + (n as u8));
        proof {
            assert(out@ =~= dec_rep(n as nat));
        }
    } else if n < 100 {
        out.push(48 + (n / 10) as u8);
        out.push(48 + (n % 10) as u8);
        proof {
            assert(out@ =~= dec_rep(n as nat));
        }
    } else if n < 1000 {
        out.push(48 + (n / 100) as u8);
        out.push(48 + ((n / 10) % 10) as u8);
        out.push(48 + (n % 10) as u8);
        proof {
            assert((n as nat) / 10 / 10 == (n as nat) / 100) by (nonlinear_arith);
            assert(out@ =~= dec_rep(n as nat));
        }
    } else if n < 10000 {
        out.push(48 + (n / 1000) as u8);
        out.push(48 + ((n / 100) % 10) as u8);
        out.push(48 + ((n / 10) % 10) as u8);
        out.push(48 + (n % 10) as u8);
        proof {
            assert((n as nat) / 10 / 10 == (n as nat) / 100) by (nonlinear_arith);
            assert((n as nat) / 100 / 10 == (n as nat) / 1000) by (nonlinear_arith);
            assert((n as nat) / 10 / 10 % 10 == (n as nat) / 100 % 10) by (nonlinear_arith);
            assert(out@ =~= dec_rep(n as nat));
        }
    } else {
        out.push(48 + (n / 10000) as u8);
        out.push(48 + ((n / 1000) % 10) as u8);
        out.push(48 + ((n / 100) % 10) as u8);
        out.push(48 + ((n / 10) % 10) as u8);
        out.push(48 + (n % 10) as u8);
        proof {
            assert((n as nat) / 10 / 10 == (n as nat) / 100) by (nonlinear_arith);
            assert((n as nat) / 100 / 10 == (n as nat) / 1000) by (nonlinear_arith);
            assert((n as nat) / 1000 / 10 == (n as nat) / 10000) by (nonlinear_arith);
            assert((n as nat) / 10 / 10 % 10 == (n as nat) / 100 % 10) by (nonlinear_arith);
            assert((n as nat) / 100 / 10 % 10 == (n as nat) / 1000 % 10) by (nonlinear_arith);
            assert(out@ =~= dec_rep(n as nat));
        }
    }
    out
}

/// The value registered under `code`, if any.
pub open spec fn lookup_code(entries: Seq<(u16, Seq<u8>)>, code: u16) -> Option<Seq<u8>>
    decreases entries.len(),
{
    if entries.len() == 0 {
        None
    } else if entries[0].0 == code {
        Some(entries[0].1)
    } else {
        lookup_code(entries.drop_first(), code)
    }
}

/// Registers `(code, reason)`: overwrites in place when the code is
/// already present, appends otherwise.
pub open spec fn register_code(entries: Seq<(u16, Seq<u8>)>, code: u16, reason: Seq<u8>) -> Seq<
    (u16, Seq<u8>),
>
    decreases entries.len(),
{
    if entries.len() == 0 {
        seq![(code, reason)]
    } else if entries[0].0 == code {
        seq![(code, reason)] + entries.drop_first()
    } else {
        seq![entries[0]] + register_code(entries.drop_first(), code, reason)
    }
}

/// A closed, extensible mapping from numeric status code to canonical
/// reason phrase. Lookup of an unregistered code is an observable failure,
/// never an abort.
pub struct StatusRegistry {
    pub entries: Vec<(u16, Vec<u8>)>,
}

impl View for StatusRegistry {
    type V = Seq<(u16, Seq<u8>)>;

    open spec fn view(&self) -> Seq<(u16, Seq<u8>)> {
        self.entries@.map_values(|p: (u16, Vec<u8>)| (p.0, p.1@))
    }
}

impl StatusRegistry {
    /// The registry holding exactly the built-in codes 200 and 404.
    pub fn new() -> (r: StatusRegistry)
        ensures
            r@ == seq![(200u16, ok_reason()), (404u16, not_found_reason())],
            forall|c: u16| lookup_code(r@, c) == default_reason(c),
    {
        let mut entries: Vec<(u16, Vec<u8>)> = Vec::new();
        let mut ok: Vec<u8> = Vec::new();
        ok.push(79);
        ok.push(75);
        proof {
            assert(ok@ =~= ok_reason());
        }
        let mut nf: Vec<u8> = Vec::new();
        nf.push(78);
        nf.push(111);
        nf.push(116);
        nf.push(32);
        nf.push(70);
        nf.push(111);
        nf.push(117);
        nf.push(110);
        nf.push(100);
        proof {
            assert(nf@ =~= not_found_reason());
        }
        entries.push((200, ok));
        entries.push((404, nf));
        let r = StatusRegistry { entries };
        proof {
            assert(r@ =~= seq![(200u16, ok_reason()), (404u16, not_found_reason())]);
            assert forall|c: u16| lookup_code(r@, c) == default_reason(c) by {
                reveal_with_fuel(lookup_code, 4);
                assert(r@.drop_first() =~= seq![(404u16, not_found_reason())]);
                assert(r@.drop_first().drop_first() =~= Seq::<(u16, Seq<u8>)>::empty());
            }
        }
        r
    }

    /// Registers an additional code, or replaces the reason of a known one.
    #[verifier::loop_isolation(false)]
    pub fn register(&mut self, code: u16, reason: Vec<u8>)
        ensures
            final(self)@ == register_code(old(self)@, code, reason@),
    {
        let ghost orig = self@;
        let mut j: usize = 0;
        proof {
            assert(orig.skip(0) =~= orig);
            assert(orig.take(0) + register_code(orig, code, reason@) =~= register_code(
                orig,
                code,
                reason@,
            ));
        }
        while j < self.entries.len()
            invariant
                j <= self.entries.len(),
                self@ == orig,
                register_code(orig, code, reason@) == orig.take(j as int) + register_code(
                    orig.skip(j as int),
                    code,
                    reason@,
                ),
            decreases self.entries.len() - j,
        {
            proof {
                assert(orig.skip(j as int)[0] == orig[j as int]);
            }
            if self.entries[j].0 == code {
                let _ = self.entries.remove(j);
                self.entries.insert(j, (code, reason));
                proof {
                    assert(orig.skip(j as int).drop_first() =~= orig.skip(j + 1 as int));
                    assert(self@ =~= orig.take(j as int) + seq![(code, reason@)] + orig.skip(
                        j + 1 as int,
                    ));
                    assert(register_code(orig.skip(j as int), code, reason@) =~= seq![
                        (code, reason@),
                    ] + orig.skip(j + 1 as int));
                    assert(orig.take(j as int) + (seq![(code, reason@)] + orig.skip(j + 1 as int))
                        =~= orig.take(j as int) + seq![(code, reason@)] + orig.skip(j + 1 as int));
                    assert(self@ =~= register_code(orig, code, reason@));
                }
                return ;
            }
            proof {
                assert(orig.skip(j as int).drop_first() =~= orig.skip(j + 1 as int));
                assert(orig.take(j as int) + (seq![orig[j as int]] + register_code(
                    orig.skip(j + 1 as int),
                    code,
                    reason@,
                )) =~= orig.take(j + 1 as int) + register_code(
                    orig.skip(j + 1 as int),
                    code,
                    reason@,
                ));
            }
            j = j + 1;
        }
        self.entries.push((code, reason));
        proof {
            assert(orig.skip(orig.len() as int) =~= Seq::<(u16, Seq<u8>)>::empty());
            assert(self@ =~= orig.take(orig.len() as int) + seq![(code, reason@)]);
        }
    }

    /// The registered reason phrase for `code`, or `UnknownStatusCode`.
    pub fn reason_for(&self, code: u16) -> (r: Result<Vec<u8>, StatusError>)
        ensures
            match r {
                Ok(v) => lookup_code(self@, code) == Some(v@),
                Err(e) => e == StatusError::UnknownStatusCode(code) && lookup_code(self@, code)
                    is None,
            },
    {
        let mut j: usize = 0;
        proof {
            assert(self@.skip(0) =~= self@);
        }
        while j < self.entries.len()
            invariant
                j <= self.entries.len(),
                lookup_code(self@, code) == lookup_code(self@.skip(j as int), code),
            decreases self.entries.len() - j,
        {
            proof {
                assert(self@.skip(j as int)[0] == self@[j as int]);
                assert(self@.skip(j as int).drop_first() =~= self@.skip(j + 1 as int));
            }
            if self.entries[j].0 == code {
                let v = copy_range(&self.entries[j].1, 0, self.entries[j].1.len());
                proof {
                    assert(v@ =~= self@[j as int].1);
                }
                return Ok(v);
            }
            j = j + 1;
        }
        proof {
            assert(self@.skip(self@.len() as int) =~= Seq::<(u16, Seq<u8>)>::empty());
        }
        Err(StatusError::UnknownStatusCode(code))
    }
}

/// A status code paired with its canonical reason phrase.
#[derive(Debug)]
pub struct StatusCode {
    pub code: u16,
    pub reason: Vec<u8>,
}

impl StatusCode {
    /// Pairs a built-in code with its reason; an unregistered code is an
    /// observable failure, never an abort.
    pub fn new(code: u16) -> (r: Result<StatusCode, StatusError>)
        ensures
            match r {
                Ok(sc) => sc.code == code && default_reason(code) == Some(sc.reason@),
                Err(e) => e == StatusError::UnknownStatusCode(code) && default_reason(code)
                    is None,
            },
    {
        let reg = StatusRegistry::new();
        match reg.reason_for(code) {
            Ok(reason) => Ok(StatusCode { code, reason }),
            Err(e) => Err(e),
        }
    }
}

/// The serialized status line without its CRLF: version, space, decimal
/// code, space, reason.
pub open spec fn status_line_text(version: Seq<u8>, code: u16, reason: Seq<u8>) -> Seq<u8> {
    version + seq![SP] + dec_rep(code as nat) + seq![SP] + reason
}

/// The parsed first line of a response: version, numeric code, reason
/// phrase drawn from the registry, never free-form.
#[derive(Debug)]
pub struct StatusLine {
    pub http_version: Vec<u8>,
    pub status_code: u16,
    pub reason: Vec<u8>,
}

impl StatusLine {
    /// Builds a status line, deriving the reason from the built-in codes.
    pub fn new(http_version: Vec<u8>, status_code: u16) -> (r: Result<StatusLine, StatusError>)
        ensures
            match r {
                Ok(sl) => sl.http_version@ == http_version@ && sl.status_code == status_code
                    && default_reason(status_code) == Some(sl.reason@),
                Err(e) => e == StatusError::UnknownStatusCode(status_code) && default_reason(
                    status_code,
                ) is None,
            },
    {
        match StatusCode::new(status_code) {
            Ok(status) => Ok(
                StatusLine { http_version, status_code: status.code, reason: status.reason },
            ),
            Err(e) => Err(e),
        }
    }

    /// Serializes the status line without its terminating CRLF.
    pub fn to_text(&self) -> (r: Vec<u8>)
        ensures
            r@ == status_line_text(self.http_version@, self.status_code, self.reason@),
    {
        let mut out: Vec<u8> = Vec::new();
        push_all(&mut out, &self.http_version);
        out.push(SP);
        proof {
            assert(out@ =~= self.http_version@ + seq![SP]);
        }
        let digits = u16_to_dec(self.status_code);
        push_all(&mut out, &digits);
        out.push(SP);
        proof {
            assert(out@ =~= self.http_version@ + seq![SP] + dec_rep(self.status_code as nat)
                + seq![SP]);
        }
        push_all(&mut out, &self.reason);
        out
    }
}

/// The wire bytes of a response: status line, CRLF, header block, blank
/// CRLF, then the raw body with no trailing terminator added.
pub open spec fn response_text(
    version: Seq<u8>,
    code: u16,
    reason: Seq<u8>,
    hs: Seq<(Seq<u8>, Seq<u8>)>,
    body: Seq<u8>,
) -> Seq<u8> {
    status_line_text(version, code, reason) + seq![CR, LF] + ser_headers(hs) + seq![CR, LF] + body
}

/// A response under construction: status line, header map, body bytes.
#[derive(Debug)]
pub struct HttpResponse {
    pub status_line: StatusLine,
    pub headers: Headers,
    pub message_body: MessageBody,
}

impl HttpResponse {
    /// Builds a response with version "HTTP/1.1" and the reason phrase the
    /// built-in registry gives for `code`.
    pub fn new(code: u16, headers: Headers, message_body: MessageBody) -> (r: Result<
        HttpResponse,
        StatusError,
    >)
        ensures
            match r {
                Ok(resp) => {
                    &&& resp.status_line.http_version@ == http_version_bytes()
                    &&& resp.status_line.status_code == code
                    &&& default_reason(code) == Some(resp.status_line.reason@)
                    &&& resp.headers@ == headers@
                    &&& resp.message_body@ == message_body@
                },
                Err(e) => e == StatusError::UnknownStatusCode(code) && default_reason(code)
                    is None,
            },
    {
        let mut version: Vec<u8> = Vec::new();
        version.push(72);
        version.push(84);
        version.push(84);
        version.push(80);
        version.push(47);
        version.push(49);
        version.push(46);
        version.push(49);
        proof {
            assert(version@ =~= http_version_bytes());
        }
        match StatusLine::new(version, code) {
            Ok(status_line) => Ok(HttpResponse { status_line, headers, message_body }),
            Err(e) => Err(e),
        }
    }

    /// Serializes the response byte-exactly: status line, CRLF, one line
    /// per header in entry order, a blank CRLF, then the raw body.
    pub fn to_text(&self) -> (r: Vec<u8>)
        ensures
            r@ == response_text(
                self.status_line.http_version@,
                self.status_line.status_code,
                self.status_line.reason@,
                self.headers@,
                self.message_body@,
            ),
    {
        let mut out = self.status_line.to_text();
        out.push(CR);
        out.push(LF);
        proof {
            assert(out@ =~= status_line_text(
                self.status_line.http_version@,
                self.status_line.status_code,
                self.status_line.reason@,
            ) + seq![CR, LF]);
        }
        let block = self.headers.to_text();
        push_all(&mut out, &block);
        out.push(CR);
        out.push(LF);
        proof {
            assert(out@ =~= status_line_text(
                self.status_line.http_version@,
                self.status_line.status_code,
                self.status_line.reason@,
            ) + seq![CR, LF] + ser_headers(self.headers@) + seq![CR, LF]);
        }
        push_all(&mut out, &self.message_body.message_body);
        out
    }
}

} // verus!
