//! Header map and message body. Headers keep insertion order and unique
//! names; a duplicate name overwrites in place (last occurrence wins).
//! Names are compared by exact byte sequence — deliberately no case folding.

use vstd::prelude::*;
use crate::ParseError;
use crate::bytes::{
    COLON, CR, LF, SP, copy_range, eq_bytes, find_byte, find_byte_in, trim, trim_range,
};

verus! {

/// One header entry at the specification level: name and value bytes.
pub type HeaderSpec = (Seq<u8>, Seq<u8>);

/// The views of a sequence of header lines.
pub open spec fn line_views(ls: Seq<Vec<u8>>) -> Seq<Seq<u8>> {
    ls.map_values(|l: Vec<u8>| l@)
}

/// Splits one header line at its first colon and trims name and value;
/// `None` when the line holds no colon.
pub open spec fn header_entry(line: Seq<u8>) -> Option<HeaderSpec> {
    match find_byte_in(line, 0, line.len() as int, COLON) {
        None => None,
        Some(c) => Some(
            (trim(line.subrange(0, c)), trim(line.subrange(c + 1, line.len() as int))),
        ),
    }
}

/// Inserts `(k, v)` into the entry sequence: overwrites in place if `k` is
/// already present, appends otherwise.
pub open spec fn insert_header(hs: Seq<HeaderSpec>, k: Seq<u8>, v: Seq<u8>) -> Seq<HeaderSpec>
    decreases hs.len(),
{
    if hs.len() == 0 {
        seq![(k, v)]
    } else if hs[0].0 == k {
        seq![(k, v)] + hs.drop_first()
    } else {
        seq![hs[0]] + insert_header(hs.drop_first(), k, v)
    }
}

/// The value stored under `k`, if any.
pub open spec fn lookup_header(hs: Seq<HeaderSpec>, k: Seq<u8>) -> Option<Seq<u8>>
    decreases hs.len(),
{
    if hs.len() == 0 {
        None
    } else if hs[0].0 == k {
        Some(hs[0].1)
    } else {
        lookup_header(hs.drop_first(), k)
    }
}

/// Outcome of turning raw header lines into a header map.
pub enum HeaderOut {
    /// The first line without a colon.
    Bad(Seq<u8>),
    /// The accumulated entries.
    Good(Seq<HeaderSpec>),
}

/// Folds raw header lines into entries, last occurrence of a name winning.
pub open spec fn headers_from_lines(lines: Seq<Seq<u8>>, acc: Seq<HeaderSpec>) -> HeaderOut
    decreases lines.len(),
{
    if lines.len() == 0 {
        HeaderOut::Good(acc)
    } else {
        match header_entry(lines[0]) {
            None => HeaderOut::Bad(lines[0]),
            Some(kv) => headers_from_lines(lines.drop_first(), insert_header(acc, kv.0, kv.1)),
        }
    }
}

/// One serialized header line: `Name: Value` followed by CRLF.
pub open spec fn header_line_text(k: Seq<u8>, v: Seq<u8>) -> Seq<u8> {
    k + seq![COLON, SP] + v + seq![CR, LF]
}

/// The serialized header block: one line per entry, in entry order.
pub open spec fn ser_headers(hs: Seq<HeaderSpec>) -> Seq<u8>
    decreases hs.len(),
{
    if hs.len() == 0 {
        Seq::empty()
    } else {
        header_line_text(hs[0].0, hs[0].1) + ser_headers(hs.drop_first())
    }
}

/// Serializing a block is serializing all but the last entry, then the last.
pub proof fn lemma_ser_headers_snoc(hs: Seq<HeaderSpec>)
    requires
        hs.len() > 0,
    ensures
        ser_headers(hs) == ser_headers(hs.drop_last()) + header_line_text(
            hs.last().0,
            hs.last().1,
        ),
    decreases hs.len(),
{
    if hs.len() == 1 {
        assert(hs.drop_last() =~= Seq::<HeaderSpec>::empty());
        assert(ser_headers(hs.drop_last()) + header_line_text(hs.last().0, hs.last().1)
            =~= header_line_text(hs[0].0, hs[0].1) + ser_headers(hs.drop_first()));
    } else {
        let rest = hs.drop_first();
        lemma_ser_headers_snoc(rest);
        assert(rest.drop_last() =~= hs.drop_last().drop_first());
        assert(rest.last() == hs.last());
        assert(header_line_text(hs[0].0, hs[0].1) + (ser_headers(rest.drop_last())
            + header_line_text(rest.last().0, rest.last().1)) =~= (header_line_text(
            hs.drop_last()[0].0,
            hs.drop_last()[0].1,
        ) + ser_headers(hs.drop_last().drop_first())) + header_line_text(
            hs.last().0,
            hs.last().1,
        ));
    }
}

/// The header map: entries in insertion order, names unique.
#[derive(Debug)]
pub struct Headers {
    pub headers: Vec<(Vec<u8>, Vec<u8>)>,
}

impl View for Headers {
    type V = Seq<HeaderSpec>;

    open spec fn view(&self) -> Seq<HeaderSpec> {
        self.headers@.map_values(|p: (Vec<u8>, Vec<u8>)| (p.0@, p.1@))
    }
}

impl Headers {
    /// A map with no entries.
    pub fn empty() -> (h: Headers)
        ensures
            h@ == Seq::<HeaderSpec>::empty(),
    {
        let h = Headers { headers: Vec::new() };
        proof {
            assert(h@ =~= Seq::<HeaderSpec>::empty());
        }
        h
    }

    /// Parses raw header lines. Each line must hold a colon; the line is
    /// split at the first one and name and value are trimmed. A repeated
    /// name overwrites the earlier entry.
    pub fn new(header_lines: Vec<Vec<u8>>) -> (r: Result<Headers, ParseError>)
        ensures
            match r {
                Ok(h) => headers_from_lines(line_views(header_lines@), Seq::empty())
                    == HeaderOut::Good(h@),
                Err(e) => e matches ParseError::MalformedHeader(l) && headers_from_lines(
                    line_views(header_lines@),
                    Seq::empty(),
                ) == HeaderOut::Bad(l@),
            },
    {
        let mut h = Headers::empty();
        let mut i: usize = 0;
        proof {
            assert(line_views(header_lines@).skip(0) =~= line_views(header_lines@));
        }
        while i < header_lines.len()
            invariant
                i <= header_lines.len(),
                headers_from_lines(line_views(header_lines@), Seq::empty())
                    == headers_from_lines(line_views(header_lines@).skip(i as int), h@),
            decreases header_lines.len() - i,
        {
            let ghost pre = line_views(header_lines@).skip(i as int);
            proof {
                assert(pre[0] == header_lines@[i as int]@);
                assert(pre.drop_first() =~= line_views(header_lines@).skip(i + 1 as int));
            }
            let line = &header_lines[i];
            match Self::parse_line(line) {
                None => {
                    let owned = copy_range(line, 0, line.len());
                    proof {
                        assert(owned@ =~= line@);
                    }
                    return Err(ParseError::MalformedHeader(owned));
                },
                Some((k, v)) => {
                    h.insert(k, v);
                },
            }
            i = i + 1;
        }
        proof {
            assert(line_views(header_lines@).skip(header_lines@.len() as int)
                =~= Seq::<Seq<u8>>::empty());
        }
        Ok(h)
    }

    /// Splits one line at its first colon, trimming name and value.
    fn parse_line(line: &Vec<u8>) -> (r: Option<(Vec<u8>, Vec<u8>)>)
        ensures
            match r {
                Some(kv) => header_entry(line@) == Some((kv.0@, kv.1@)),
                None => header_entry(line@) is None,
            },
    {
        let n = line.len();
        match find_byte(line, 0, n, COLON) {
            None => None,
            Some(c) => {
                let k = trim_range(line, 0, c);
                let v = trim_range(line, c + 1, n);
                Some((k, v))
            },
        }
    }

    /// Inserts an entry, overwriting the value in place when the name is
    /// already present and appending otherwise.
    #[verifier::loop_isolation(false)]
    pub fn insert(&mut self, key: Vec<u8>, value: Vec<u8>)
        ensures
            final(self)@ == insert_header(old(self)@, key@, value@),
    {
        let ghost orig = self@;
        let mut j: usize = 0;
        proof {
            assert(orig.skip(0) =~= orig);
            assert(orig.take(0) + insert_header(orig, key@, value@) =~= insert_header(
                orig,
                key@,
                value@,
            ));
        }
        while j < self.headers.len()
            invariant
                j <= self.headers.len(),
                self@ == orig,
                insert_header(orig, key@, value@) == orig.take(j as int) + insert_header(
                    orig.skip(j as int),
                    key@,
                    value@,
                ),
            decreases self.headers.len() - j,
        {
            proof {
                assert(orig.skip(j as int)[0] == orig[j as int]);
            }
            if eq_bytes(&self.headers[j].0, &key) {
                let _ = self.headers.remove(j);
                self.headers.insert(j, (key, value));
                proof {
                    assert(orig.skip(j as int).drop_first() =~= orig.skip(j + 1 as int));
                    assert(self@ =~= orig.take(j as int) + seq![(key@, value@)] + orig.skip(
                        j + 1 as int,
                    ));
                    assert(insert_header(orig.skip(j as int), key@, value@) =~= seq![
                        (key@, value@),
                    ] + orig.skip(j + 1 as int));
                    assert(orig.take(j as int) + (seq![(key@, value@)] + orig.skip(j + 1 as int))
                        =~= orig.take(j as int) + seq![(key@, value@)] + orig.skip(j + 1 as int));
                    assert(self@ =~= insert_header(orig, key@, value@));
                }
                return ;
            }
            proof {
                assert(orig.skip(j as int).drop_first() =~= orig.skip(j + 1 as int));
                assert(orig.take(j as int) + (seq![orig[j as int]] + insert_header(
                    orig.skip(j + 1 as int),
                    key@,
                    value@,
                )) =~= orig.take(j + 1 as int) + insert_header(
                    orig.skip(j + 1 as int),
                    key@,
                    value@,
                ));
            }
            j = j + 1;
        }
        self.headers.push((key, value));
        proof {
            assert(orig.skip(orig.len() as int) =~= Seq::<HeaderSpec>::empty());
            assert(self@ =~= orig.take(orig.len() as int) + seq![(key@, value@)]);
        }
    }

    /// Exact-match lookup of a header name; no case folding.
    pub fn get(&self, key: &Vec<u8>) -> (r: Option<&Vec<u8>>)
        ensures
            match r {
                Some(v) => lookup_header(self@, key@) == Some(v@),
                None => lookup_header(self@, key@) is None,
            },
    {
        let mut j: usize = 0;
        proof {
            assert(self@.skip(0) =~= self@);
        }
        while j < self.headers.len()
            invariant
                j <= self.headers.len(),
                lookup_header(self@, key@) == lookup_header(self@.skip(j as int), key@),
            decreases self.headers.len() - j,
        {
            proof {
                assert(self@.skip(j as int)[0] == self@[j as int]);
                assert(self@.skip(j as int).drop_first() =~= self@.skip(j + 1 as int));
            }
            if eq_bytes(&self.headers[j].0, key) {
                return Some(&self.headers[j].1);
            }
            j = j + 1;
        }
        proof {
            assert(self@.skip(self@.len() as int) =~= Seq::<HeaderSpec>::empty());
        }
        None
    }

    /// Serializes every entry as `Name: Value` CRLF, in entry order.
    pub fn to_text(&self) -> (r: Vec<u8>)
        ensures
            r@ == ser_headers(self@),
    {
        let mut out: Vec<u8> = Vec::new();
        let mut i: usize = 0;
        while i < self.headers.len()
            invariant
                i <= self.headers.len(),
                out@ == ser_headers(self@.take(i as int)),
            decreases self.headers.len() - i,
        {
            push_line(&mut out, &self.headers[i].0, &self.headers[i].1);
            proof {
                let taken = self@.take(i + 1 as int);
                lemma_ser_headers_snoc(taken);
                assert(taken.drop_last() =~= self@.take(i as int));
                assert(taken.last() == self@[i as int]);
            }
            i = i + 1;
        }
        proof {
            assert(self@.take(self@.len() as int) =~= self@);
        }
        out
    }
}

/// Appends `Name: Value` CRLF to `out`.
fn push_line(out: &mut Vec<u8>, k: &Vec<u8>, v: &Vec<u8>)
    ensures
        final(out)@ == old(out)@ + header_line_text(k@, v@),
{
    let ghost orig = out@;
    crate::bytes::push_all(out, k);
    out.push(COLON);
    out.push(SP);
    proof {
        assert(out@ =~= orig + k@ + seq![COLON, SP]);
    }
    crate::bytes::push_all(out, v);
    out.push(CR);
    out.push(LF);
    proof {
        assert(out@ =~= orig + (k@ + seq![COLON, SP] + v@ + seq![CR, LF]));
    }
}

/// The raw body bytes of a request or response.
#[derive(Debug)]
pub struct MessageBody {
    pub message_body: Vec<u8>,
}

impl View for MessageBody {
    type V = Seq<u8>;

    open spec fn view(&self) -> Seq<u8> {
        self.message_body@
    }
}

impl MessageBody {
    /// Wraps raw body bytes.
    pub fn new(message_body: Vec<u8>) -> (r: MessageBody)
        ensures
            r@ == message_body@,
    {
        MessageBody { message_body }
    }

    /// The body bytes, copied out unchanged.
    pub fn to_text(&self) -> (r: Vec<u8>)
        ensures
            r@ == self@,
    {
        let r = copy_range(&self.message_body, 0, self.message_body.len());
        proof {
            assert(r@ =~= self@);
        }
        r
    }
}

} // verus!
