//! The round-trip law: parsing the serialization of a well-formed request
//! gives back exactly the method, target, version, header entries and body
//! it was built from. Stated over the same specification functions the
//! executable parser and serializer are proved against, so it connects
//! `HttpRequest::to_text` with `HttpRequest::new` end to end.

use vstd::prelude::*;
use crate::bytes::{
    COLON, CR, LF, SP, crlf_at, find_byte_in, find_crlf_in, find_sep_in, is_ws,
    lemma_find_byte_in, lemma_find_crlf_in, lemma_find_sep_in, sep_at, trim, trim_back,
    trim_front,
};
use crate::message::{
    HeaderOut, HeaderSpec, header_entry, header_line_text, headers_from_lines, insert_header,
    ser_headers,
};
use crate::request::{
    HttpMethod, LineOut, ParseOut, method_bytes, method_of, parse_outcome, parse_request_line,
    request_text, split_lines,
};

verus! {

/// A request-line token fit for the wire: no space, CR, or LF.
pub open spec fn token_ok(t: Seq<u8>) -> bool {
    forall|i: int| 0 <= i < t.len() ==> t[i] != SP && t[i] != CR && t[i] != LF
}

/// A header name fit for the wire: no colon, CR, or LF, and nothing the
/// parser would trim away at either end.
pub open spec fn header_key_ok(k: Seq<u8>) -> bool {
    &&& forall|i: int| 0 <= i < k.len() ==> k[i] != COLON && k[i] != CR && k[i] != LF
    &&& (k.len() > 0 ==> !is_ws(k[0]) && !is_ws(k[k.len() - 1]))
}

/// A header value fit for the wire: no CR or LF, and nothing the parser
/// would trim away at either end.
pub open spec fn header_value_ok(v: Seq<u8>) -> bool {
    &&& forall|i: int| 0 <= i < v.len() ==> v[i] != CR && v[i] != LF
    &&& (v.len() > 0 ==> !is_ws(v[0]) && !is_ws(v[v.len() - 1]))
}

/// Every entry is fit for the wire.
pub open spec fn entries_ok(hs: Seq<HeaderSpec>) -> bool {
    forall|i: int|
        0 <= i < hs.len() ==> header_key_ok(#[trigger] hs[i].0) && header_value_ok(hs[i].1)
}

/// Entries fit for the wire with pairwise distinct names — the
/// single-valued case, where no insertion overwrites an earlier one.
pub open spec fn headers_ok(hs: Seq<HeaderSpec>) -> bool {
    &&& entries_ok(hs)
    &&& forall|i: int, j: int| 0 <= i < j < hs.len() ==> hs[i].0 != hs[j].0
}

/// The line bytes of one serialized header entry, without its CRLF.
pub open spec fn header_line_body(k: Seq<u8>, v: Seq<u8>) -> Seq<u8> {
    k + seq![COLON, SP] + v
}

/// The lines the header block serializes to, in entry order.
pub open spec fn header_lines_of(hs: Seq<HeaderSpec>) -> Seq<Seq<u8>> {
    hs.map_values(|p: HeaderSpec| header_line_body(p.0, p.1))
}

/// Some entry of `hs` carries the name `n`.
pub open spec fn has_name(hs: Seq<HeaderSpec>, n: Seq<u8>) -> bool {
    exists|j: int| 0 <= j < hs.len() && (#[trigger] hs[j]).0 == n
}

/// The entry names of `hs` are pairwise distinct.
pub open spec fn names_unique(hs: Seq<HeaderSpec>) -> bool {
    forall|i: int, j: int| 0 <= i < j < hs.len() ==> (#[trigger] hs[i]).0 != (#[trigger] hs[j]).0
}

/// Last occurrence wins: after inserting `(k, v)`, looking up `k` yields
/// `v`, and every other name maps exactly as before.
pub proof fn lemma_insert_then_lookup(hs: Seq<HeaderSpec>, k: Seq<u8>, v: Seq<u8>)
    ensures
        crate::message::lookup_header(insert_header(hs, k, v), k) == Some(v),
        forall|n: Seq<u8>|
            n != k ==> #[trigger] crate::message::lookup_header(insert_header(hs, k, v), n)
                == crate::message::lookup_header(hs, n),
    decreases hs.len(),
{
    let ins = insert_header(hs, k, v);
    if hs.len() == 0 {
        assert(ins == seq![(k, v)]);
        assert(ins.drop_first() =~= Seq::<HeaderSpec>::empty());
        assert forall|n: Seq<u8>| n != k implies #[trigger] crate::message::lookup_header(ins, n)
            == crate::message::lookup_header(hs, n) by {
            reveal_with_fuel(crate::message::lookup_header, 3);
            assert(ins[0].0 == k);
        }
    } else if hs[0].0 == k {
        assert(ins == seq![(k, v)] + hs.drop_first());
        assert(ins[0] == (k, v));
        assert(ins.drop_first() =~= hs.drop_first());
        assert forall|n: Seq<u8>| n != k implies #[trigger] crate::message::lookup_header(ins, n)
            == crate::message::lookup_header(hs, n) by {
            assert(crate::message::lookup_header(ins, n) == crate::message::lookup_header(
                hs.drop_first(),
                n,
            ));
            assert(crate::message::lookup_header(hs, n) == crate::message::lookup_header(
                hs.drop_first(),
                n,
            ));
        }
    } else {
        assert(ins == seq![hs[0]] + insert_header(hs.drop_first(), k, v));
        assert(ins[0] == hs[0]);
        assert(ins.drop_first() =~= insert_header(hs.drop_first(), k, v));
        lemma_insert_then_lookup(hs.drop_first(), k, v);
        assert forall|n: Seq<u8>| n != k implies #[trigger] crate::message::lookup_header(ins, n)
            == crate::message::lookup_header(hs, n) by {
            if hs[0].0 == n {
                assert(crate::message::lookup_header(ins, n) == Some(ins[0].1));
                assert(crate::message::lookup_header(hs, n) == Some(hs[0].1));
            } else {
                assert(crate::message::lookup_header(ins, n) == crate::message::lookup_header(
                    insert_header(hs.drop_first(), k, v),
                    n,
                ));
                assert(crate::message::lookup_header(hs, n) == crate::message::lookup_header(
                    hs.drop_first(),
                    n,
                ));
            }
        }
    }
}

/// Insertion introduces no name but `k`.
pub proof fn lemma_insert_names(hs: Seq<HeaderSpec>, k: Seq<u8>, v: Seq<u8>)
    ensures
        forall|i: int|
            0 <= i < insert_header(hs, k, v).len() ==> (#[trigger] insert_header(hs, k, v)[i]).0
                == k || has_name(hs, insert_header(hs, k, v)[i].0),
    decreases hs.len(),
{
    let ins = insert_header(hs, k, v);
    if hs.len() == 0 {
    } else if hs[0].0 == k {
        assert forall|i: int| 0 <= i < ins.len() implies (#[trigger] ins[i]).0 == k || has_name(
            hs,
            ins[i].0,
        ) by {
            if i > 0 {
                assert(ins[i] == hs.drop_first()[i - 1]);
                assert(hs[i] == ins[i]);
            }
        }
    } else {
        lemma_insert_names(hs.drop_first(), k, v);
        assert forall|i: int| 0 <= i < ins.len() implies (#[trigger] ins[i]).0 == k || has_name(
            hs,
            ins[i].0,
        ) by {
            if i == 0 {
                assert(ins[0] == hs[0]);
                assert(hs[0].0 == ins[0].0);
            } else {
                let rest = hs.drop_first();
                assert(ins[i] == insert_header(rest, k, v)[i - 1]);
                if insert_header(rest, k, v)[i - 1].0 != k {
                    let j = choose|j: int|
                        0 <= j < rest.len() && (#[trigger] rest[j]).0 == insert_header(
                            rest,
                            k,
                            v,
                        )[i - 1].0;
                    assert(hs[j + 1] == rest[j]);
                }
            }
        }
    }
}

/// Insertion keeps the entry names pairwise distinct.
pub proof fn lemma_insert_preserves_unique(hs: Seq<HeaderSpec>, k: Seq<u8>, v: Seq<u8>)
    requires
        names_unique(hs),
    ensures
        names_unique(insert_header(hs, k, v)),
    decreases hs.len(),
{
    let ins = insert_header(hs, k, v);
    if hs.len() == 0 {
    } else if hs[0].0 == k {
        assert forall|i: int, j: int| 0 <= i < j < ins.len() implies (#[trigger] ins[i]).0 != (
        #[trigger] ins[j]).0 by {
            assert(ins[j] == hs.drop_first()[j - 1]);
            assert(hs[j] == ins[j]);
            if i == 0 {
                assert(hs[0].0 != hs[j].0);
            } else {
                assert(hs[i] == ins[i]);
            }
        }
    } else {
        let rest = hs.drop_first();
        assert forall|i: int, j: int| 0 <= i < j < rest.len() implies (#[trigger] rest[i]).0 != (
        #[trigger] rest[j]).0 by {
            assert(hs[i + 1] == rest[i]);
            assert(hs[j + 1] == rest[j]);
        }
        lemma_insert_preserves_unique(rest, k, v);
        lemma_insert_names(rest, k, v);
        assert forall|i: int, j: int| 0 <= i < j < ins.len() implies (#[trigger] ins[i]).0 != (
        #[trigger] ins[j]).0 by {
            if i == 0 {
                assert(ins[0] == hs[0]);
                assert(ins[j] == insert_header(rest, k, v)[j - 1]);
                if ins[j].0 == k {
                } else {
                    assert(has_name(rest, insert_header(rest, k, v)[j - 1].0));
                    let t = choose|t: int|
                        0 <= t < rest.len() && (#[trigger] rest[t]).0 == insert_header(
                            rest,
                            k,
                            v,
                        )[j - 1].0;
                    assert(hs[t + 1] == rest[t]);
                    assert(hs[0].0 != hs[t + 1].0);
                }
            } else {
                assert(ins[i] == insert_header(rest, k, v)[i - 1]);
                assert(ins[j] == insert_header(rest, k, v)[j - 1]);
            }
        }
    }
}

/// Every header map the parser builds has pairwise distinct names: the
/// fold that backs `Headers::new` keeps the unique-name invariant.
pub proof fn lemma_parsed_headers_unique(lines: Seq<Seq<u8>>, acc: Seq<HeaderSpec>)
    requires
        names_unique(acc),
    ensures
        headers_from_lines(lines, acc) matches HeaderOut::Good(hs) ==> names_unique(hs),
    decreases lines.len(),
{
    if lines.len() == 0 {
    } else {
        match header_entry(lines[0]) {
            None => {},
            Some(kv) => {
                lemma_insert_preserves_unique(acc, kv.0, kv.1);
                lemma_parsed_headers_unique(lines.drop_first(), insert_header(acc, kv.0, kv.1));
            },
        }
    }
}

/// Each method token holds no space, CR, or LF, is nonempty, and is
/// recognized as exactly its own method.
pub proof fn lemma_method_token(m: HttpMethod)
    ensures
        token_ok(method_bytes(m)),
        method_bytes(m).len() > 0,
        method_of(method_bytes(m)) == Some(m),
{
    match m {
        HttpMethod::GET => {},
        HttpMethod::HEAD => {},
        HttpMethod::POST => {},
        HttpMethod::PUT => {},
        HttpMethod::DELETE => {},
        HttpMethod::CONNECT => {},
        HttpMethod::OPTIONS => {},
        HttpMethod::TRACE => {},
    }
}

/// Trimming changes nothing when neither end is whitespace.
pub proof fn lemma_trim_id(t: Seq<u8>)
    requires
        t.len() > 0 ==> !is_ws(t[0]) && !is_ws(t[t.len() - 1]),
    ensures
        trim(t) == t,
{
    assert(trim_back(t) == t);
    assert(trim_front(t) == t);
}

/// Trimming a value behind its separating space yields the value itself.
pub proof fn lemma_trim_sp_value(v: Seq<u8>)
    requires
        header_value_ok(v),
    ensures
        trim(seq![SP] + v) == v,
{
    let s = seq![SP] + v;
    if v.len() == 0 {
        reveal_with_fuel(trim_back, 3);
        assert(s =~= seq![SP]);
        assert(s.drop_last() =~= Seq::<u8>::empty());
        assert(trim_back(s) =~= Seq::<u8>::empty());
        assert(trim(s) =~= v);
    } else {
        assert(s[s.len() - 1] == v[v.len() - 1]);
        assert(trim_back(s) == s);
        assert(is_ws(s[0]));
        assert(s.drop_first() =~= v);
        assert(trim_front(s) == trim_front(v));
        assert(trim_front(v) == v);
    }
}

/// Inserting a fresh name appends the entry.
pub proof fn lemma_insert_fresh(acc: Seq<HeaderSpec>, k: Seq<u8>, v: Seq<u8>)
    requires
        forall|i: int| 0 <= i < acc.len() ==> (#[trigger] acc[i]).0 != k,
    ensures
        insert_header(acc, k, v) == acc.push((k, v)),
    decreases acc.len(),
{
    if acc.len() == 0 {
        assert(insert_header(acc, k, v) =~= acc.push((k, v)));
    } else {
        assert forall|i: int| 0 <= i < acc.drop_first().len() implies (#[trigger] acc.drop_first()[i]).0
            != k by {
            assert(acc.drop_first()[i] == acc[i + 1]);
        }
        lemma_insert_fresh(acc.drop_first(), k, v);
        assert(seq![acc[0]] + acc.drop_first().push((k, v)) =~= acc.push((k, v)));
    }
}

/// Parsing one serialized header line recovers its name and value.
pub proof fn lemma_header_entry_line(k: Seq<u8>, v: Seq<u8>)
    requires
        header_key_ok(k),
        header_value_ok(v),
    ensures
        header_entry(header_line_body(k, v)) == Some((k, v)),
{
    let line = header_line_body(k, v);
    let n = line.len() as int;
    let p = k.len() as int;
    assert forall|j: int| 0 <= j < p implies line[j] == k[j] by {
        assert((k + seq![COLON, SP])[j] == k[j]);
        assert((k + seq![COLON, SP] + v)[j] == (k + seq![COLON, SP])[j]);
    }
    assert((k + seq![COLON, SP])[p] == COLON);
    assert(line[p] == COLON);
    lemma_find_byte_in(line, 0, n, COLON);
    match find_byte_in(line, 0, n, COLON) {
        None => {
            assert(false);
        },
        Some(q) => {
            assert(q == p);
            assert(line.subrange(0, p) =~= k);
            assert(line.subrange(p + 1, n) =~= seq![SP] + v);
            lemma_trim_id(k);
            lemma_trim_sp_value(v);
        },
    }
}

/// Folding the serialized header lines onto `acc` appends all the entries,
/// because their fresh, pairwise distinct names never overwrite.
pub proof fn lemma_headers_from_ser(hs: Seq<HeaderSpec>, acc: Seq<HeaderSpec>)
    requires
        headers_ok(hs),
        forall|i: int, j: int|
            0 <= i < hs.len() && 0 <= j < acc.len() ==> (#[trigger] acc[j]).0 != (
            #[trigger] hs[i]).0,
    ensures
        headers_from_lines(header_lines_of(hs), acc) == HeaderOut::Good(acc + hs),
    decreases hs.len(),
{
    let lines = header_lines_of(hs);
    if hs.len() == 0 {
        assert(lines =~= Seq::<Seq<u8>>::empty());
        assert(acc + hs =~= acc);
    } else {
        let k = hs[0].0;
        let v = hs[0].1;
        assert(lines[0] == header_line_body(k, v));
        lemma_header_entry_line(k, v);
        assert forall|i: int| 0 <= i < acc.len() implies (#[trigger] acc[i]).0 != k by {
            assert(acc[i].0 != hs[0].0);
        }
        lemma_insert_fresh(acc, k, v);
        let acc2 = acc.push((k, v));
        let rest = hs.drop_first();
        assert(lines.drop_first() =~= header_lines_of(rest));
        assert forall|i: int|
            0 <= i < rest.len() implies header_key_ok(#[trigger] rest[i].0) && header_value_ok(
            rest[i].1,
        ) by {
            assert(rest[i] == hs[i + 1]);
        }
        assert forall|i: int, j: int| 0 <= i < j < rest.len() implies rest[i].0 != rest[j].0 by {
            assert(rest[i] == hs[i + 1]);
            assert(rest[j] == hs[j + 1]);
        }
        assert forall|i: int, j: int|
            0 <= i < rest.len() && 0 <= j < acc2.len() implies (#[trigger] acc2[j]).0 != (
        #[trigger] rest[i]).0 by {
            assert(rest[i] == hs[i + 1]);
            if j < acc.len() {
                assert(acc2[j] == acc[j]);
            } else {
                assert(acc2[j] == (k, v));
                assert(hs[0].0 != hs[i + 1].0);
            }
        }
        lemma_headers_from_ser(rest, acc2);
        assert(acc2 + rest =~= acc + hs);
    }
}

/// The serialized header block of at least one entry ends in CRLF and is
/// at least four bytes long.
pub proof fn lemma_ser_headers_tail(hs: Seq<HeaderSpec>)
    requires
        hs.len() > 0,
    ensures
        ser_headers(hs).len() >= 4,
        ser_headers(hs)[ser_headers(hs).len() - 2] == CR,
        ser_headers(hs)[ser_headers(hs).len() - 1] == LF,
    decreases hs.len(),
{
    let line = header_line_text(hs[0].0, hs[0].1);
    let rest = ser_headers(hs.drop_first());
    assert(line.len() >= 4);
    assert(line[line.len() - 2] == CR && line[line.len() - 1] == LF);
    if hs.len() == 1 {
        assert(hs.drop_first().len() == 0);
        assert(rest == Seq::<u8>::empty());
        assert(ser_headers(hs) =~= line);
    } else {
        lemma_ser_headers_tail(hs.drop_first());
        assert(ser_headers(hs) == line + rest);
        assert((line + rest)[line.len() + rest.len() - 2] == rest[rest.len() - 2]);
        assert((line + rest)[line.len() + rest.len() - 1] == rest[rest.len() - 1]);
    }
}

/// Within a buffer whose bytes from `base` on spell the serialized header
/// block, the line split recovers exactly the serialized lines, and no
/// blank-line separator starts anywhere from just before the block to the
/// final CRLF at `sep`.
pub proof fn lemma_split_ser_block(s: Seq<u8>, base: int, sep: int, hs: Seq<HeaderSpec>)
    requires
        hs.len() > 0,
        entries_ok(hs),
        2 <= base <= sep,
        sep + 2 <= s.len(),
        sep == base + ser_headers(hs).len() - 2,
        forall|i: int| 0 <= i < ser_headers(hs).len() ==> s[base + i] == #[trigger] ser_headers(
            hs,
        )[i],
    ensures
        split_lines(s, base, sep) == header_lines_of(hs),
        forall|i: int| base - 2 <= i < sep ==> !sep_at(s, i),
    decreases hs.len(),
{
    let k = hs[0].0;
    let v = hs[0].1;
    let line = header_line_body(k, v);
    let lt = header_line_text(k, v);
    let rest = ser_headers(hs.drop_first());
    let block = ser_headers(hs);
    assert(block == lt + rest);
    assert(lt =~= line + seq![CR, LF]);
    let q = base + line.len();
    assert forall|j: int| 0 <= j < line.len() implies s[base + j] == line[j] by {
        assert(block[j] == lt[j]);
        assert(lt[j] == line[j]);
    }
    assert(block[line.len() as int] == lt[line.len() as int]);
    assert(block[line.len() as int + 1] == lt[line.len() as int + 1]);
    assert(s[q] == CR && s[q + 1] == LF);
    assert forall|j: int| base <= j < q implies s[j] != CR by {
        let o = j - base;
        if o < k.len() {
            assert(line[o] == k[o]);
        } else if o == k.len() {
            assert(line[o] == COLON);
        } else if o == k.len() + 1 {
            assert(line[o] == SP);
        } else {
            assert(line[o] == v[o - k.len() - 2]);
        }
    }
    assert(line.len() + 2 <= block.len());
    assert(q + 2 <= sep + 2);
    assert(crlf_at(s, q));
    lemma_find_crlf_in(s, base, sep + 2);
    match find_crlf_in(s, base, sep + 2) {
        None => {
            assert(false);
        },
        Some(qq) => {
            assert(qq == q);
        },
    }
    if hs.len() == 1 {
        assert(hs.drop_first().len() == 0);
        assert(rest == Seq::<u8>::empty());
        assert(block.len() == line.len() + 2);
        assert(q == sep);
        assert(split_lines(s, base, sep) == seq![s.subrange(base, q)]);
        assert(s.subrange(base, q) =~= line);
        assert(header_lines_of(hs) =~= seq![line]);
        assert forall|i: int| base - 2 <= i < sep implies !sep_at(s, i) by {
            if i == base - 2 {
                assert(s[base] == line[0]);
            } else if i == base - 1 {
                assert(s[base] == line[0]);
            } else {
                assert(s[i] != CR);
            }
        }
    } else {
        lemma_ser_headers_tail(hs.drop_first());
        assert(rest.len() >= 4);
        assert(q + 2 < sep);
        assert(split_lines(s, base, sep) == seq![s.subrange(base, q)] + split_lines(
            s,
            q + 2,
            sep,
        ));
        assert(s.subrange(base, q) =~= line);
        let base2 = q + 2;
        assert(sep == base2 + rest.len() - 2);
        assert forall|i: int|
            0 <= i < hs.drop_first().len() implies header_key_ok(
            #[trigger] hs.drop_first()[i].0,
        ) && header_value_ok(hs.drop_first()[i].1) by {
            assert(hs.drop_first()[i] == hs[i + 1]);
        }
        assert forall|i: int| 0 <= i < rest.len() implies s[base2 + i] == #[trigger] rest[i] by {
            assert(block[line.len() + 2 + i] == rest[i]);
            assert(s[base + (line.len() + 2 + i)] == block[line.len() + 2 + i]);
        }
        lemma_split_ser_block(s, base2, sep, hs.drop_first());
        assert(seq![line] + header_lines_of(hs.drop_first()) =~= header_lines_of(hs));
        assert forall|i: int| base - 2 <= i < sep implies !sep_at(s, i) by {
            if i == base - 2 {
                assert(s[base] == line[0]);
            } else if i == base - 1 {
                assert(s[base] == line[0]);
            } else if base <= i < q {
                assert(s[i] != CR);
            } else {
                assert(base2 - 2 <= i < sep);
            }
        }
    }
}

/// Parsing the serialized request line recovers its three tokens.
pub proof fn lemma_parse_request_line_ser(m: HttpMethod, u: Seq<u8>, v: Seq<u8>)
    requires
        token_ok(u),
        token_ok(v),
    ensures
        parse_request_line(method_bytes(m) + seq![SP] + u + seq![SP] + v) == LineOut::Good(
            m,
            u,
            v,
        ),
{
    lemma_method_token(m);
    let mb = method_bytes(m);
    let a1 = mb + seq![SP];
    let a2 = a1 + u;
    let a3 = a2 + seq![SP];
    let line = a3 + v;
    let n = line.len() as int;
    let p1 = mb.len() as int;
    let p2 = mb.len() + 1 + u.len() as int;
    assert forall|j: int| 0 <= j < p1 implies line[j] == mb[j] by {
        assert(line[j] == a3[j]);
        assert(a3[j] == a2[j]);
        assert(a2[j] == a1[j]);
        assert(a1[j] == mb[j]);
    }
    assert(a1[p1] == SP);
    assert(a2[p1] == a1[p1]);
    assert(a3[p1] == a2[p1]);
    assert(line[p1] == a3[p1]);
    assert forall|j: int| p1 < j < p2 implies line[j] == u[j - p1 - 1] by {
        assert(line[j] == a3[j]);
        assert(a3[j] == a2[j]);
        assert(a2[j] == u[j - a1.len()]);
    }
    assert(a3[p2] == SP);
    assert(line[p2] == a3[p2]);
    assert forall|j: int| p2 < j < n implies line[j] == v[j - p2 - 1] by {
        assert(line[j] == v[j - a3.len()]);
    }
    lemma_find_byte_in(line, 0, n, SP);
    match find_byte_in(line, 0, n, SP) {
        None => {
            assert(false);
        },
        Some(s1) => {
            assert(s1 == p1);
        },
    }
    lemma_find_byte_in(line, p1 + 1, n, SP);
    match find_byte_in(line, p1 + 1, n, SP) {
        None => {
            assert(false);
        },
        Some(s2) => {
            assert(s2 == p2);
        },
    }
    lemma_find_byte_in(line, p2 + 1, n, SP);
    match find_byte_in(line, p2 + 1, n, SP) {
        None => {},
        Some(s3) => {
            assert(false);
        },
    }
    assert(line.subrange(0, p1) =~= mb);
    assert(line.subrange(p1 + 1, p2) =~= u);
    assert(line.subrange(p2 + 1, n) =~= v);
}

/// The round-trip law. For every request whose target and version are
/// space- and CRLF-free tokens and whose header entries are wire-clean
/// with pairwise distinct names, parsing the serialized bytes yields
/// exactly the original method, target, version, header entries in order,
/// and body. The body is arbitrary.
pub proof fn lemma_parse_inverts_serialize(
    m: HttpMethod,
    u: Seq<u8>,
    v: Seq<u8>,
    hs: Seq<HeaderSpec>,
    b: Seq<u8>,
)
    requires
        token_ok(u),
        token_ok(v),
        headers_ok(hs),
    ensures
        parse_outcome(request_text(m, u, v, hs, b)) == ParseOut::Parsed(m, u, v, hs, b),
{
    lemma_method_token(m);
    let mb = method_bytes(m);
    let rl = mb + seq![SP] + u + seq![SP] + v;
    let block = ser_headers(hs);
    let s = request_text(m, u, v, hs, b);
    let rn = rl.len() as int;
    let sep = rl.len() + block.len() as int;
    assert(s =~= rl + seq![CR, LF] + block + seq![CR, LF] + b);
    let c1 = rl + seq![CR, LF];
    let c2 = c1 + block;
    let c3 = c2 + seq![CR, LF];
    assert(s =~= c3 + b);
    assert forall|j: int| 0 <= j < rn implies s[j] == rl[j] by {
        assert(s[j] == c3[j]);
        assert(c3[j] == c2[j]);
        assert(c2[j] == c1[j]);
        assert(c1[j] == rl[j]);
    }
    assert(c1[rn] == CR && c1[rn + 1] == LF);
    assert(c2[rn] == c1[rn] && c2[rn + 1] == c1[rn + 1]);
    assert(c3[rn] == c2[rn] && c3[rn + 1] == c2[rn + 1]);
    assert(s[rn] == CR && s[rn + 1] == LF);
    assert forall|j: int| 0 <= j < block.len() implies s[rn + 2 + j] == #[trigger] block[j] by {
        assert(s[rn + 2 + j] == c3[rn + 2 + j]);
        assert(c3[rn + 2 + j] == c2[rn + 2 + j]);
        assert(c2[rn + 2 + j] == block[j]);
    }
    assert(c3[sep + 2] == CR && c3[sep + 3] == LF);
    assert(s[sep + 2] == CR && s[sep + 3] == LF);
    assert forall|j: int| 0 <= j < b.len() implies s[sep + 4 + j] == #[trigger] b[j] by {
        assert(s[c3.len() + j] == b[j]);
    }
    assert forall|j: int| 0 <= j < rn implies s[j] != CR && s[j] != LF by {
        if j < mb.len() {
            assert(rl[j] == ((mb + seq![SP]) + u)[j]);
            assert(rl[j] == (mb + seq![SP])[j]);
            assert(rl[j] == mb[j]);
        } else if j == mb.len() {
            assert(rl[j] == ((mb + seq![SP]) + u)[j]);
            assert(rl[j] == (mb + seq![SP])[j]);
        } else if j < mb.len() + 1 + u.len() {
            assert(rl[j] == ((mb + seq![SP]) + u)[j]);
            assert(rl[j] == u[j - mb.len() - 1]);
        } else if j == mb.len() + 1 + u.len() {
            assert(rl[j] == seq![SP][0]);
        } else {
            assert(rl[j] == v[j - mb.len() - 2 - u.len()]);
        }
    }
    // the separator sits at `sep`
    if hs.len() == 0 {
        assert(block == Seq::<u8>::empty());
        assert(sep == rn);
        assert(sep_at(s, sep));
    } else {
        lemma_ser_headers_tail(hs);
        assert(s[rn + 2 + (block.len() - 2)] == block[block.len() - 2]);
        assert(s[rn + 2 + (block.len() - 1)] == block[block.len() - 1]);
        assert(s[sep] == CR && s[sep + 1] == LF);
        assert(sep_at(s, sep));
    }
    // and nowhere earlier
    if hs.len() > 0 {
        lemma_split_ser_block(s, rn + 2, sep, hs);
    }
    assert forall|i: int| 0 <= i < sep implies !sep_at(s, i) by {
        if i < rn {
            assert(s[i] != CR);
        } else if i == rn {
            if hs.len() == 0 {
                assert(i == sep);
            } else {
                assert(rn >= rn + 2 - 2);
            }
        } else {
            assert(rn + 2 - 2 <= i < sep);
        }
    }
    lemma_find_sep_in(s, 0, s.len() as int);
    match find_sep_in(s, 0, s.len() as int) {
        None => {
            assert(false);
        },
        Some(p) => {
            assert(p == sep);
        },
    }
    // the first CRLF closes the request line
    assert(crlf_at(s, rn));
    lemma_find_crlf_in(s, 0, sep + 2);
    match find_crlf_in(s, 0, sep + 2) {
        None => {
            assert(false);
        },
        Some(q0) => {
            assert(q0 == rn);
        },
    }
    let lines = split_lines(s, 0, sep);
    if hs.len() == 0 {
        assert(lines == seq![s.subrange(0, rn)]);
        assert(s.subrange(0, rn) =~= rl);
        assert(lines.drop_first() =~= Seq::<Seq<u8>>::empty());
        assert(headers_from_lines(lines.drop_first(), Seq::empty()) == HeaderOut::Good(
            Seq::empty(),
        ));
        assert(Seq::<HeaderSpec>::empty() =~= hs);
    } else {
        assert(rn < sep);
        assert(lines == seq![s.subrange(0, rn)] + split_lines(s, rn + 2, sep));
        assert(s.subrange(0, rn) =~= rl);
        assert(lines[0] == rl);
        assert(lines.drop_first() =~= header_lines_of(hs));
        lemma_headers_from_ser(hs, Seq::empty());
        assert(Seq::<HeaderSpec>::empty() + hs =~= hs);
    }
    lemma_parse_request_line_ser(m, u, v);
    assert(s.subrange(sep + 4, s.len() as int) =~= b);
}

} // verus!
