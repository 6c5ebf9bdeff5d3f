use vstd::prelude::*;
use vstd::slice::slice_subrange;
use byteorder::{BigEndian, ByteOrder};
use crate::error::{ClassLoadingError, ErrorKind};

verus! {

/// Two bytes at `p`, most significant first.
pub open spec fn be16(s: Seq<u8>, p: int) -> int {
    s[p] as int * 256 + s[p + 1] as int
}

/// Four bytes at `p`, most significant first.
pub open spec fn be32(s: Seq<u8>, p: int) -> int {
    be16(s, p) * 65536 + be16(s, p + 2)
}

/// Eight bytes at `p`, most significant first.
pub open spec fn be64(s: Seq<u8>, p: int) -> int {
    be32(s, p) * 0x1_0000_0000 + be32(s, p + 4)
}

/// The two's complement reading of a 32-bit pattern.
pub open spec fn signed32(u: int) -> int {
    if u >= 0x8000_0000 { u - 0x1_0000_0000 } else { u }
}

/// The two's complement reading of a 64-bit pattern.
pub open spec fn signed64(u: int) -> int {
    if u >= 0x8000_0000_0000_0000 { u - 0x1_0000_0000_0000_0000 } else { u }
}

/// Taking `n` bytes at `pos` inside a window that ends at `end`.
pub open spec fn take(pos: int, n: int, end: int) -> Result<int, ErrorKind> {
    if pos + n <= end { Ok(pos + n) } else { Err(ErrorKind::UnexpectedEof) }
}

/// Relies on byteorder's `BigEndian::read_u16`: the first two bytes, most significant first.
#[verifier::external_body]
fn be_u16(b: &[u8]) -> (r: u16)
    requires
        b@.len() >= 2,
    ensures
        r as int == be16(b@, 0),
{
    BigEndian::read_u16(b)
}

/// Relies on byteorder's `BigEndian::read_u32`: the first four bytes, most significant first.
#[verifier::external_body]
fn be_u32(b: &[u8]) -> (r: u32)
    requires
        b@.len() >= 4,
    ensures
        r as int == be32(b@, 0),
{
    BigEndian::read_u32(b)
}

/// Relies on byteorder's `BigEndian::read_u64`: the first eight bytes, most significant first.
#[verifier::external_body]
fn be_u64(b: &[u8]) -> (r: u64)
    requires
        b@.len() >= 8,
    ensures
        r as int == be64(b@, 0),
{
    BigEndian::read_u64(b)
}

/// Relies on byteorder's `BigEndian::read_i32`: the first four bytes as a
/// big-endian two's complement integer.
#[verifier::external_body]
fn be_i32(b: &[u8]) -> (r: i32)
    requires
        b@.len() >= 4,
    ensures
        r as int == signed32(be32(b@, 0)),
{
    BigEndian::read_i32(b)
}

/// Relies on byteorder's `BigEndian::read_i64`: the first eight bytes as a
/// big-endian two's complement integer.
#[verifier::external_body]
fn be_i64(b: &[u8]) -> (r: i64)
    requires
        b@.len() >= 8,
    ensures
        r as int == signed64(be64(b@, 0)),
{
    BigEndian::read_i64(b)
}

/// The error of a read past the end of the window.
pub fn eof() -> (e: ClassLoadingError)
    ensures
        e.kind == ErrorKind::UnexpectedEof,
{
    ClassLoadingError::new(ErrorKind::UnexpectedEof)
}

/// One byte at `pos`.
pub fn read_u8(s: &[u8], pos: usize, end: usize) -> (r: Result<(u8, usize), ClassLoadingError>)
    requires
        pos <= end <= s@.len(),
    ensures
        match r {
            Ok((v, p)) => take(pos as int, 1, end as int) == Ok::<int, ErrorKind>(p as int)
                && v == s@[pos as int],
            Err(e) => take(pos as int, 1, end as int) == Err::<int, ErrorKind>(e.kind),
        },
{
    if pos < end {
        Ok((s[pos], pos + 1))
    } else {
        Err(eof())
    }
}

/// A big-endian `u16` at `pos`.
pub fn read_u16(s: &[u8], pos: usize, end: usize) -> (r: Result<(u16, usize), ClassLoadingError>)
    requires
        pos <= end <= s@.len(),
    ensures
        match r {
            Ok((v, p)) => take(pos as int, 2, end as int) == Ok::<int, ErrorKind>(p as int)
                && v as int == be16(s@, pos as int),
            Err(e) => take(pos as int, 2, end as int) == Err::<int, ErrorKind>(e.kind),
        },
{
    if end - pos >= 2 {
        let v = be_u16(slice_subrange(s, pos, pos + 2));
        Ok((v, pos + 2))
    } else {
        Err(eof())
    }
}

/// A big-endian `u32` at `pos`.
pub fn read_u32(s: &[u8], pos: usize, end: usize) -> (r: Result<(u32, usize), ClassLoadingError>)
    requires
        pos <= end <= s@.len(),
    ensures
        match r {
            Ok((v, p)) => take(pos as int, 4, end as int) == Ok::<int, ErrorKind>(p as int)
                && v as int == be32(s@, pos as int),
            Err(e) => take(pos as int, 4, end as int) == Err::<int, ErrorKind>(e.kind),
        },
{
    if end - pos >= 4 {
        let v = be_u32(slice_subrange(s, pos, pos + 4));
        Ok((v, pos + 4))
    } else {
        Err(eof())
    }
}

/// A big-endian `u64` at `pos`.
pub fn read_u64(s: &[u8], pos: usize, end: usize) -> (r: Result<(u64, usize), ClassLoadingError>)
    requires
        pos <= end <= s@.len(),
    ensures
        match r {
            Ok((v, p)) => take(pos as int, 8, end as int) == Ok::<int, ErrorKind>(p as int)
                && v as int == be64(s@, pos as int),
            Err(e) => take(pos as int, 8, end as int) == Err::<int, ErrorKind>(e.kind),
        },
{
    if end - pos >= 8 {
        let v = be_u64(slice_subrange(s, pos, pos + 8));
        Ok((v, pos + 8))
    } else {
        Err(eof())
    }
}

/// A big-endian `i32` at `pos`.
pub fn read_i32(s: &[u8], pos: usize, end: usize) -> (r: Result<(i32, usize), ClassLoadingError>)
    requires
        pos <= end <= s@.len(),
    ensures
        match r {
            Ok((v, p)) => take(pos as int, 4, end as int) == Ok::<int, ErrorKind>(p as int)
                && v as int == signed32(be32(s@, pos as int)),
            Err(e) => take(pos as int, 4, end as int) == Err::<int, ErrorKind>(e.kind),
        },
{
    if end - pos >= 4 {
        let v = be_i32(slice_subrange(s, pos, pos + 4));
        Ok((v, pos + 4))
    } else {
        Err(eof())
    }
}

/// A big-endian `i64` at `pos`.
pub fn read_i64(s: &[u8], pos: usize, end: usize) -> (r: Result<(i64, usize), ClassLoadingError>)
    requires
        pos <= end <= s@.len(),
    ensures
        match r {
            Ok((v, p)) => take(pos as int, 8, end as int) == Ok::<int, ErrorKind>(p as int)
                && v as int == signed64(be64(s@, pos as int)),
            Err(e) => take(pos as int, 8, end as int) == Err::<int, ErrorKind>(e.kind),
        },
{
    if end - pos >= 8 {
        let v = be_i64(slice_subrange(s, pos, pos + 8));
        Ok((v, pos + 8))
    } else {
        Err(eof())
    }
}

/// `n` raw bytes at `pos`.
pub fn read_bytes(s: &[u8], pos: usize, n: usize, end: usize) -> (r: Result<(Vec<u8>, usize), ClassLoadingError>)
    requires
        pos <= end <= s@.len(),
    ensures
        match r {
            Ok((v, p)) => take(pos as int, n as int, end as int) == Ok::<int, ErrorKind>(p as int)
                && v@ == s@.subrange(pos as int, p as int),
            Err(e) => take(pos as int, n as int, end as int) == Err::<int, ErrorKind>(e.kind),
        },
{
    if end - pos >= n {
        let mut v: Vec<u8> = Vec::with_capacity(n);
        let mut i: usize = pos;
        while i < pos + n
            invariant
                pos <= i <= pos + n <= end <= s@.len(),
                v@ == s@.subrange(pos as int, i as int),
            decreases pos + n - i,
        {
            v.push(s[i]);
            i = i + 1;
            assert(v@ =~= s@.subrange(pos as int, i as int));
        }
        Ok((v, pos + n))
    } else {
        Err(eof())
    }
}

} // verus!
