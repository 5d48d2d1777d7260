//! Splitting a file's bytes into lines, and decoding a line as text.
use vstd::prelude::*;

verus! {

/// The lines found so far in `b`, and the bytes of the line still open.
/// A newline byte closes the open line, without the newline and without a
/// carriage return just before it.
pub open spec fn scan_lines(b: Seq<u8>) -> (Seq<Seq<u8>>, Seq<u8>)
    decreases b.len(),
{
    if b.len() == 0 {
        (seq![], seq![])
    } else {
        let prev = scan_lines(b.drop_last());
        if b.last() == 10u8 {
            (prev.0.push(strip_cr(prev.1)), seq![])
        } else {
            (prev.0, prev.1.push(b.last()))
        }
    }
}

/// `l` without one trailing carriage return.
pub open spec fn strip_cr(l: Seq<u8>) -> Seq<u8> {
    if l.len() > 0 && l.last() == 13u8 {
        l.drop_last()
    } else {
        l
    }
}

/// The lines of `b`: each ends at a newline, and a last line without one
/// counts only when it is not empty.
pub open spec fn lines_of(b: Seq<u8>) -> Seq<Seq<u8>> {
    let s = scan_lines(b);
    if s.1.len() > 0 {
        s.0.push(s.1)
    } else {
        s.0
    }
}

/// The views of a sequence of byte vectors.
pub open spec fn byte_views(s: Seq<Vec<u8>>) -> Seq<Seq<u8>> {
    s.map_values(|l: Vec<u8>| l@)
}

/// Splits `bytes` into lines.
pub fn split_lines(bytes: &Vec<u8>) -> (r: Vec<Vec<u8>>)
    ensures
        byte_views(r@) == lines_of(bytes@),
{
    let mut lines: Vec<Vec<u8>> = Vec::new();
    let mut cur: Vec<u8> = Vec::new();
    let mut i: usize = 0;
    assert(bytes@.subrange(0, 0) =~= Seq::<u8>::empty());
    while i < bytes.len()
        invariant
            0 <= i <= bytes@.len(),
            (byte_views(lines@), cur@) == scan_lines(bytes@.subrange(0, i as int)),
        decreases bytes.len() - i,
    {
        let ghost before = bytes@.subrange(0, i as int);
        assert(bytes@.subrange(0, i + 1).drop_last() =~= before);
        let b = bytes[i];
        if b == 10u8 {
            let n = cur.len();
            if n > 0 && cur[n - 1] == 13u8 {
                cur.pop();
            }
            let ghost old_lines = lines@;
            lines.push(cur);
            cur = Vec::new();
            assert(byte_views(lines@) =~= byte_views(old_lines).push(strip_cr(scan_lines(before).1)));
        } else {
            cur.push(b);
        }
        i = i + 1;
    }
    assert(bytes@.subrange(0, i as int) =~= bytes@);
    if cur.len() > 0 {
        let ghost old_lines = lines@;
        let ghost last = cur@;
        lines.push(cur);
        assert(byte_views(lines@) =~= byte_views(old_lines).push(last));
    }
    lines
}

/// What the UTF-8 decoding of `bytes` gives: the text, or `None` where the
/// bytes are not valid UTF-8.
pub uninterp spec fn utf8_decode(bytes: Seq<u8>) -> Option<Seq<char>>;

/// Relies on std's `str::from_utf8`, which returns the text of valid UTF-8
/// bytes and an error on any other.
#[verifier::external_body]
pub(crate) fn decode_utf8(bytes: &[u8]) -> (r: Option<String>)
    ensures
        match r {
            Some(s) => utf8_decode(bytes@) == Some(s@),
            None => utf8_decode(bytes@) is None,
        },
{
    std::str::from_utf8(bytes).ok().map(String::from)
}

} // verus!
