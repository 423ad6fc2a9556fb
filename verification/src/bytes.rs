//! Small byte-sequence helpers shared by the other modules.
use vstd::prelude::*;

verus! {

/// Compares two byte slices element by element.
pub fn bytes_equal(a: &[u8], b: &[u8]) -> (res: bool)
    ensures
        res == (a@ == b@),
{
    if a.len() != b.len() {
        return false;
    }
    let mut i: usize = 0;
    while i < a.len()
        invariant
            a@.len() == b@.len(),
            i <= a@.len(),
            forall|j: int| 0 <= j < i ==> a@[j] == b@[j],
        decreases a@.len() - i,
    {
        if a[i] != b[i] {
            return false;
        }
        i = i + 1;
    }
    assert(a@ =~= b@);
    true
}

/// Copies `src[start..end]` into a fresh vector.
pub fn copy_range(src: &[u8], start: usize, end: usize) -> (res: Vec<u8>)
    requires
        start <= end <= src@.len(),
    ensures
        res@ == src@.subrange(start as int, end as int),
{
    let mut out: Vec<u8> = Vec::new();
    let mut i: usize = start;
    while i < end
        invariant
            start <= i <= end <= src@.len(),
            out@ == src@.subrange(start as int, i as int),
        decreases end - i,
    {
        out.push(src[i]);
        i = i + 1;
        assert(out@ =~= src@.subrange(start as int, i as int));
    }
    out
}

/// A fresh copy of `src`.
pub fn copy_all(src: &[u8]) -> (res: Vec<u8>)
    ensures
        res@ == src@,
{
    let res = copy_range(src, 0, src.len());
    assert(src@.subrange(0, src@.len() as int) =~= src@);
    res
}

/// Appends all of `src` to `dst`.
pub fn append_bytes(dst: &mut Vec<u8>, src: &[u8])
    ensures
        final(dst)@ == old(dst)@ + src@,
{
    let mut i: usize = 0;
    let ghost start = dst@;
    while i < src.len()
        invariant
            i <= src@.len(),
            start == old(dst)@,
            dst@ == start + src@.subrange(0, i as int),
        decreases src@.len() - i,
    {
        dst.push(src[i]);
        i = i + 1;
        assert(dst@ =~= start + src@.subrange(0, i as int));
    }
    assert(src@.subrange(0, src@.len() as int) =~= src@);
}

/// The characters of a string, in order.
pub fn chars_of(s: &str) -> (res: Vec<char>)
    ensures
        res@ == s@,
{
    let mut out: Vec<char> = Vec::new();
    for c in it: s.chars()
        invariant
            it.seq() == s@,
            out@ == s@.take(it.index() as int),
    {
        out.push(c);
        assert(out@ =~= s@.take(it.index() as int + 1));
    }
    assert(s@.take(s@.len() as int) =~= s@);
    out
}

/// The bytes of a text read one byte per character (exact for ASCII text).
pub open spec fn ascii(s: Seq<char>) -> Seq<u8> {
    s.map_values(|c: char| c as u8)
}

/// The bytes of an ASCII text, one per character.
pub fn ascii_bytes(s: &str) -> (res: Vec<u8>)
    ensures
        res@ == ascii(s@),
{
    let cs = chars_of(s);
    let mut out: Vec<u8> = Vec::new();
    let mut i: usize = 0;
    while i < cs.len()
        invariant
            cs@ == s@,
            i <= cs@.len(),
            out@ == ascii(cs@.take(i as int)),
        decreases cs@.len() - i,
    {
        out.push(cs[i] as u8);
        i = i + 1;
        assert(out@ =~= ascii(cs@.take(i as int)));
    }
    assert(cs@.take(cs@.len() as int) =~= cs@);
    out
}

} // verus!
