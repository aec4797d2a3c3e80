//! Byte-level building blocks shared by the parser and the serializers:
//! first-occurrence searches, range copies, and whitespace trimming, each
//! specified against a recursive specification function.

use vstd::prelude::*;

verus! {

/// Carriage return, the first byte of the HTTP line terminator.
pub const CR: u8 = 13;
/// Line feed, the second byte of the HTTP line terminator.
pub const LF: u8 = 10;
/// The space byte, the request-line token separator.
pub const SP: u8 = 32;
/// Horizontal tab, trimmed around header names and values like the space.
pub const HT: u8 = 9;
/// The colon byte, separating a header name from its value.
pub const COLON: u8 = 58;

/// Whitespace that is trimmed from the ends of header names and values.
pub open spec fn is_ws(b: u8) -> bool {
    b == SP || b == HT
}

/// A CRLF line terminator starts at position `i` of `s`.
pub open spec fn crlf_at(s: Seq<u8>, i: int) -> bool {
    &&& 0 <= i
    &&& i + 2 <= s.len()
    &&& s[i] == CR
    &&& s[i + 1] == LF
}

/// The blank-line separator (CRLF CRLF) starts at position `i` of `s`.
pub open spec fn sep_at(s: Seq<u8>, i: int) -> bool {
    &&& 0 <= i
    &&& i + 4 <= s.len()
    &&& s[i] == CR
    &&& s[i + 1] == LF
    &&& s[i + 2] == CR
    &&& s[i + 3] == LF
}

/// Position of the first occurrence of byte `b` in `s[i..end]`, if any.
pub open spec fn find_byte_in(s: Seq<u8>, i: int, end: int, b: u8) -> Option<int>
    decreases end - i,
{
    if i < 0 || i + 1 > end || end > s.len() {
        None
    } else if s[i] == b {
        Some(i)
    } else {
        find_byte_in(s, i + 1, end, b)
    }
}

/// Position of the first CRLF whose two bytes lie inside `s[i..end]`, if any.
pub open spec fn find_crlf_in(s: Seq<u8>, i: int, end: int) -> Option<int>
    decreases end - i,
{
    if i < 0 || i + 2 > end || end > s.len() {
        None
    } else if crlf_at(s, i) {
        Some(i)
    } else {
        find_crlf_in(s, i + 1, end)
    }
}

/// Position of the first blank-line separator inside `s[i..end]`, if any.
pub open spec fn find_sep_in(s: Seq<u8>, i: int, end: int) -> Option<int>
    decreases end - i,
{
    if i < 0 || i + 4 > end || end > s.len() {
        None
    } else if sep_at(s, i) {
        Some(i)
    } else {
        find_sep_in(s, i + 1, end)
    }
}

/// What `find_byte_in` returns is the first occurrence, and `None` means none.
pub proof fn lemma_find_byte_in(s: Seq<u8>, i: int, end: int, b: u8)
    requires
        0 <= i,
        end <= s.len(),
    ensures
        match find_byte_in(s, i, end, b) {
            Some(q) => i <= q && q < end && s[q] == b && (forall|j: int|
                i <= j < q ==> s[j] != b),
            None => forall|j: int| i <= j < end ==> s[j] != b,
        },
    decreases end - i,
{
    if i + 1 > end {
    } else if s[i] == b {
    } else {
        lemma_find_byte_in(s, i + 1, end, b);
    }
}

/// What `find_crlf_in` returns is the first CRLF, and `None` means none.
pub proof fn lemma_find_crlf_in(s: Seq<u8>, i: int, end: int)
    requires
        0 <= i,
        end <= s.len(),
    ensures
        match find_crlf_in(s, i, end) {
            Some(q) => i <= q && q + 2 <= end && crlf_at(s, q) && (forall|j: int|
                i <= j < q ==> !crlf_at(s, j)),
            None => forall|j: int| i <= j && j + 2 <= end ==> !crlf_at(s, j),
        },
    decreases end - i,
{
    if i + 2 > end {
    } else if crlf_at(s, i) {
    } else {
        lemma_find_crlf_in(s, i + 1, end);
    }
}

/// What `find_sep_in` returns is the first separator, and `None` means none.
pub proof fn lemma_find_sep_in(s: Seq<u8>, i: int, end: int)
    requires
        0 <= i,
        end <= s.len(),
    ensures
        match find_sep_in(s, i, end) {
            Some(q) => i <= q && q + 4 <= end && sep_at(s, q) && (forall|j: int|
                i <= j < q ==> !sep_at(s, j)),
            None => forall|j: int| i <= j && j + 4 <= end ==> !sep_at(s, j),
        },
    decreases end - i,
{
    if i + 4 > end {
    } else if sep_at(s, i) {
    } else {
        lemma_find_sep_in(s, i + 1, end);
    }
}

/// First occurrence of `b` in `buf[from..end]`.
pub fn find_byte(buf: &Vec<u8>, from: usize, end: usize, b: u8) -> (r: Option<usize>)
    requires
        from <= end,
        end <= buf.len(),
    ensures
        match r {
            Some(q) => from <= q && q < end && find_byte_in(buf@, from as int, end as int, b)
                == Some(q as int),
            None => find_byte_in(buf@, from as int, end as int, b) is None,
        },
{
    let mut i: usize = from;
    while i < end
        invariant
            from <= i <= end,
            end <= buf.len(),
            find_byte_in(buf@, from as int, end as int, b) == find_byte_in(
                buf@,
                i as int,
                end as int,
                b,
            ),
        decreases end - i,
    {
        if buf[i] == b {
            return Some(i);
        }
        i = i + 1;
    }
    None
}

/// First CRLF in `buf[from..end]`.
pub fn find_crlf(buf: &Vec<u8>, from: usize, end: usize) -> (r: Option<usize>)
    requires
        from <= end,
        end <= buf.len(),
    ensures
        match r {
            Some(q) => from <= q && q + 2 <= end && find_crlf_in(buf@, from as int, end as int)
                == Some(q as int),
            None => find_crlf_in(buf@, from as int, end as int) is None,
        },
{
    if end < 2 {
        return None;
    }
    let mut i: usize = from;
    while i <= end - 2
        invariant
            from <= i,
            2 <= end <= buf.len(),
            i <= end,
            find_crlf_in(buf@, from as int, end as int) == find_crlf_in(
                buf@,
                i as int,
                end as int,
            ),
        decreases end - i,
    {
        if buf[i] == CR && buf[i + 1] == LF {
            return Some(i);
        }
        i = i + 1;
    }
    None
}

/// First blank-line separator in `buf[from..end]`.
pub fn find_sep(buf: &Vec<u8>, from: usize, end: usize) -> (r: Option<usize>)
    requires
        from <= end,
        end <= buf.len(),
    ensures
        match r {
            Some(q) => from <= q && q + 4 <= end && find_sep_in(buf@, from as int, end as int)
                == Some(q as int),
            None => find_sep_in(buf@, from as int, end as int) is None,
        },
{
    if end < 4 {
        return None;
    }
    let mut i: usize = from;
    while i <= end - 4
        invariant
            from <= i,
            4 <= end <= buf.len(),
            i <= end,
            find_sep_in(buf@, from as int, end as int) == find_sep_in(buf@, i as int, end as int),
        decreases end - i,
    {
        if buf[i] == CR && buf[i + 1] == LF && buf[i + 2] == CR && buf[i + 3] == LF {
            return Some(i);
        }
        i = i + 1;
    }
    None
}

/// Copies `buf[from..end]` into a fresh vector.
pub fn copy_range(buf: &Vec<u8>, from: usize, end: usize) -> (r: Vec<u8>)
    requires
        from <= end,
        end <= buf.len(),
    ensures
        r@ == buf@.subrange(from as int, end as int),
{
    let mut out: Vec<u8> = Vec::new();
    let mut i: usize = from;
    while i < end
        invariant
            from <= i <= end,
            end <= buf.len(),
            out@ == buf@.subrange(from as int, i as int),
        decreases end - i,
    {
        out.push(buf[i]);
        proof {
            assert(out@ =~= buf@.subrange(from as int, i + 1 as int));
        }
        i = i + 1;
    }
    out
}

/// Appends all of `src` to `dst`.
pub fn push_all(dst: &mut Vec<u8>, src: &Vec<u8>)
    ensures
        final(dst)@ == old(dst)@ + src@,
{
    let ghost orig = dst@;
    let mut i: usize = 0;
    while i < src.len()
        invariant
            i <= src.len(),
            dst@ == orig + src@.subrange(0, i as int),
        decreases src.len() - i,
    {
        dst.push(src[i]);
        proof {
            assert(orig + src@.subrange(0, i as int) + seq![src@[i as int]] =~= orig
                + src@.subrange(0, i + 1 as int));
        }
        i = i + 1;
    }
    proof {
        assert(orig + src@.subrange(0, src@.len() as int) =~= orig + src@);
    }
}

/// True exactly when the two vectors hold the same bytes.
pub fn eq_bytes(a: &Vec<u8>, b: &Vec<u8>) -> (r: bool)
    ensures
        r == (a@ == b@),
{
    if a.len() != b.len() {
        return false;
    }
    let mut i: usize = 0;
    while i < a.len()
        invariant
            i <= a.len(),
            a.len() == b.len(),
            forall|j: int| 0 <= j < i ==> a@[j] == b@[j],
        decreases a.len() - i,
    {
        if a[i] != b[i] {
            return false;
        }
        i = i + 1;
    }
    proof {
        assert(a@ =~= b@);
    }
    true
}

/// `s` with leading whitespace removed.
pub open spec fn trim_front(s: Seq<u8>) -> Seq<u8>
    decreases s.len(),
{
    if s.len() > 0 && is_ws(s[0]) {
        trim_front(s.drop_first())
    } else {
        s
    }
}

/// `s` with trailing whitespace removed.
pub open spec fn trim_back(s: Seq<u8>) -> Seq<u8>
    decreases s.len(),
{
    if s.len() > 0 && is_ws(s[s.len() - 1]) {
        trim_back(s.drop_last())
    } else {
        s
    }
}

/// `s` with surrounding whitespace removed.
pub open spec fn trim(s: Seq<u8>) -> Seq<u8> {
    trim_front(trim_back(s))
}

/// Copies `buf[from..end]` with surrounding whitespace removed.
pub fn trim_range(buf: &Vec<u8>, from: usize, end: usize) -> (r: Vec<u8>)
    requires
        from <= end,
        end <= buf.len(),
    ensures
        r@ == trim(buf@.subrange(from as int, end as int)),
{
    let mut b: usize = end;
    while b > from && (buf[b - 1] == SP || buf[b - 1] == HT)
        invariant
            from <= b <= end,
            end <= buf.len(),
            trim_back(buf@.subrange(from as int, end as int)) == trim_back(
                buf@.subrange(from as int, b as int),
            ),
        decreases b,
    {
        proof {
            let cur = buf@.subrange(from as int, b as int);
            assert(cur.drop_last() =~= buf@.subrange(from as int, b - 1 as int));
        }
        b = b - 1;
    }
    proof {
        let cur = buf@.subrange(from as int, b as int);
        assert(trim_back(cur) == cur);
    }
    let mut a: usize = from;
    while a < b && (buf[a] == SP || buf[a] == HT)
        invariant
            from <= a <= b <= end,
            end <= buf.len(),
            trim_back(buf@.subrange(from as int, end as int)) == buf@.subrange(
                from as int,
                b as int,
            ),
            trim_front(buf@.subrange(from as int, b as int)) == trim_front(
                buf@.subrange(a as int, b as int),
            ),
        decreases b - a,
    {
        proof {
            let cur = buf@.subrange(a as int, b as int);
            assert(cur.drop_first() =~= buf@.subrange(a + 1 as int, b as int));
        }
        a = a + 1;
    }
    proof {
        let cur = buf@.subrange(a as int, b as int);
        assert(trim_front(cur) == cur);
    }
    copy_range(buf, a, b)
}

} // verus!
