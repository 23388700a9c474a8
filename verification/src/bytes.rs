//! Little-endian field readers over a byte slice.
//!
//! Every numeric field of the format is little-endian.  A reader takes the
//! slice and the position of the field; a read either yields the value and
//! the position just past it, or fails with [`Error::Consume`] naming the
//! field, exactly when the slice ends before the field does.

use vstd::prelude::*;

use crate::errors::Error;

verus! {

/// The field of `n` bytes at `p` lies inside `s`.
pub open spec fn has(s: Seq<u8>, p: int, n: int) -> bool {
    p + n <= s.len()
}

/// The little-endian 16-bit value at `p`.
pub open spec fn le16(s: Seq<u8>, p: int) -> u16
    recommends
        0 <= p,
        has(s, p, 2),
{
    (s[p] as int + s[p + 1] as int * 0x100) as u16
}

/// The little-endian 32-bit value at `p`.
pub open spec fn le32(s: Seq<u8>, p: int) -> u32
    recommends
        0 <= p,
        has(s, p, 4),
{
    (s[p] as int + s[p + 1] as int * 0x100 + s[p + 2] as int * 0x10000 + s[p + 3] as int
        * 0x1000000) as u32
}

/// Advancing `p` by `n`, held back at the end of `s`.  A position past the
/// end and the end itself are indistinguishable to every later read, so
/// skips are clamped rather than carried beyond the slice.
pub open spec fn spec_skip(s: Seq<u8>, p: int, n: int) -> int {
    if p + n <= s.len() {
        p + n
    } else {
        s.len() as int
    }
}

/// Read one byte.
pub(crate) fn want_u8(data: &[u8], pos: usize, tag: &'static str) -> (r: Result<(u8, usize), Error>)
    requires
        pos <= data@.len(),
    ensures
        has(data@, pos as int, 1) ==> (r matches Ok(p) && p.0 == data@[pos as int] && p.1 == pos
            + 1),
        !(has(data@, pos as int, 1)) ==> (r matches Err(e) && e matches Error::Consume(t) && t@
            == tag@),
{
    if data.len() - pos >= 1 {
        Ok((data[pos], pos + 1))
    } else {
        Err(Error::Consume(tag))
    }
}

/// Read a little-endian `u16`.
pub(crate) fn want_u16(data: &[u8], pos: usize, tag: &'static str) -> (r: Result<
    (u16, usize),
    Error,
>)
    requires
        pos <= data@.len(),
    ensures
        has(data@, pos as int, 2) ==> (r matches Ok(p) && p.0 == le16(data@, pos as int) && p.1
            == pos + 2),
        !(has(data@, pos as int, 2)) ==> (r matches Err(e) && e matches Error::Consume(t) && t@
            == tag@),
{
    if data.len() - pos >= 2 {
        let v: u16 = data[pos] as u16 + (data[pos + 1] as u16) * 0x100;
        Ok((v, pos + 2))
    } else {
        Err(Error::Consume(tag))
    }
}

/// Read a little-endian `u32`.
pub(crate) fn want_u32(data: &[u8], pos: usize, tag: &'static str) -> (r: Result<
    (u32, usize),
    Error,
>)
    requires
        pos <= data@.len(),
    ensures
        has(data@, pos as int, 4) ==> (r matches Ok(p) && p.0 == le32(data@, pos as int) && p.1
            == pos + 4),
        !(has(data@, pos as int, 4)) ==> (r matches Err(e) && e matches Error::Consume(t) && t@
            == tag@),
{
    if data.len() - pos >= 4 {
        let v: u32 = data[pos] as u32 + (data[pos + 1] as u32) * 0x100 + (data[pos + 2] as u32)
            * 0x10000 + (data[pos + 3] as u32) * 0x1000000;
        Ok((v, pos + 4))
    } else {
        Err(Error::Consume(tag))
    }
}

/// Check that a field of `n` bytes is present, without keeping its
/// contents, and step past it.
pub(crate) fn want_skip(data: &[u8], pos: usize, n: usize, tag: &'static str) -> (r: Result<
    usize,
    Error,
>)
    requires
        pos <= data@.len(),
    ensures
        has(data@, pos as int, n as int) ==> (r matches Ok(p) && p == pos + n),
        !(has(data@, pos as int, n as int)) ==> (r matches Err(e) && e matches Error::Consume(t)
            && t@ == tag@),
{
    if n <= data.len() - pos {
        Ok(pos + n)
    } else {
        Err(Error::Consume(tag))
    }
}

/// Copy the `n` bytes at `pos` out of the slice.
pub(crate) fn want_bytes(data: &[u8], pos: usize, n: usize, tag: &'static str) -> (r: Result<
    (Vec<u8>, usize),
    Error,
>)
    requires
        pos <= data@.len(),
    ensures
        has(data@, pos as int, n as int) ==> (r matches Ok(p) && p.0@ == data@.subrange(
            pos as int,
            pos + n,
        ) && p.1 == pos + n),
        !(has(data@, pos as int, n as int)) ==> (r matches Err(e) && e matches Error::Consume(t)
            && t@ == tag@),
{
    if n <= data.len() - pos {
        let dlen = data.len();
        let mut v: Vec<u8> = Vec::new();
        let mut i: usize = 0;
        while i < n
            invariant
                i <= n,
                pos + n <= dlen,
                dlen == data@.len(),
                v@ == data@.subrange(pos as int, pos + i),
            decreases n - i,
        {
            v.push(data[pos + i]);
            proof {
                assert(v@ =~= data@.subrange(pos as int, pos + i + 1));
            }
            i += 1;
        }
        Ok((v, pos + n))
    } else {
        Err(Error::Consume(tag))
    }
}

/// Advance `pos` by `n`, held back at the end of the slice, as
/// [`spec_skip`] says.
pub(crate) fn skip_clamped(data: &[u8], pos: usize, n: usize) -> (r: usize)
    requires
        pos <= data@.len(),
    ensures
        r == spec_skip(data@, pos as int, n as int),
        r <= data@.len(),
{
    if n <= data.len() - pos {
        pos + n
    } else {
        data.len()
    }
}

} // verus!
