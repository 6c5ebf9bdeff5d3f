use vstd::prelude::*;
use crate::bytes::{be16, read_u16, read_u8, take};
use crate::error::{ClassLoadingError, ErrorKind};
use crate::list::{items_at, lemma_items_end, lemma_items_start, lemma_items_step, spec_items};

verus! {

#[derive(Debug, Clone, Copy, PartialEq, Eq, Structural)]
pub struct ObjectVariableInfo {
    pub constant_index: u16,
}

#[derive(Debug, Clone, Copy, PartialEq, Eq, Structural)]
pub struct UninitializedVariableInfo {
    pub offset: u16,
}

/// The type of one local or stack slot in a stack map frame.
#[derive(Debug, Clone, Copy, PartialEq, Eq, Structural)]
pub enum VerificationType {
    Top,
    Integer,
    Float,
    Long,
    Double,
    Null,
    UninitializedThis,
    Object(ObjectVariableInfo),
    Uninitialized(UninitializedVariableInfo),
}

/// Where the verification type at `pos` ends, or the error met.
pub open spec fn spec_vti(s: Seq<u8>, pos: int, end: int) -> Result<int, ErrorKind> {
    match take(pos, 1, end) {
        Err(e) => Err(e),
        Ok(p) => if s[pos] <= 6 {
            Ok(p)
        } else if s[pos] == 7 || s[pos] == 8 {
            take(p, 2, end)
        } else {
            Err(ErrorKind::UnknownVerificationType(s[pos]))
        },
    }
}

/// `v` is the verification type encoded at `pos`.
pub open spec fn vti_at(v: VerificationType, s: Seq<u8>, pos: int) -> bool {
    let t = s[pos];
    match v {
        VerificationType::Top => t == 0,
        VerificationType::Integer => t == 1,
        VerificationType::Float => t == 2,
        VerificationType::Double => t == 3,
        VerificationType::Long => t == 4,
        VerificationType::Null => t == 5,
        VerificationType::UninitializedThis => t == 6,
        VerificationType::Object(o) => t == 7 && o.constant_index as int == be16(s, pos + 1),
        VerificationType::Uninitialized(u) => t == 8 && u.offset as int == be16(s, pos + 1),
    }
}

pub open spec fn vti_item(s: Seq<u8>, end: int) -> spec_fn(int) -> Result<int, ErrorKind> {
    |q: int| spec_vti(s, q, end)
}

pub open spec fn vti_check(s: Seq<u8>) -> spec_fn(VerificationType, int) -> bool {
    |v: VerificationType, q: int| vti_at(v, s, q)
}

/// Decodes the verification type at `pos`.
pub fn read_verification_type(s: &[u8], pos: usize, end: usize) -> (r: Result<(VerificationType, usize), ClassLoadingError>)
    requires
        pos <= end <= s@.len(),
    ensures
        match r {
            Ok((v, p)) => spec_vti(s@, pos as int, end as int) == Ok::<int, ErrorKind>(p as int) && vti_at(v, s@, pos as int)
                && pos < p <= end,
            Err(e) => spec_vti(s@, pos as int, end as int) == Err::<int, ErrorKind>(e.kind),
        },
{
    let (tag, p) = read_u8(s, pos, end)?;
    match tag {
        0 => Ok((VerificationType::Top, p)),
        1 => Ok((VerificationType::Integer, p)),
        2 => Ok((VerificationType::Float, p)),
        3 => Ok((VerificationType::Double, p)),
        4 => Ok((VerificationType::Long, p)),
        5 => Ok((VerificationType::Null, p)),
        6 => Ok((VerificationType::UninitializedThis, p)),
        7 => {
            let (constant_index, q) = read_u16(s, p, end)?;
            Ok((VerificationType::Object(ObjectVariableInfo { constant_index }), q))
        },
        8 => {
            let (offset, q) = read_u16(s, p, end)?;
            Ok((VerificationType::Uninitialized(UninitializedVariableInfo { offset }), q))
        },
        _ => Err(ClassLoadingError::new(ErrorKind::UnknownVerificationType(tag))),
    }
}

/// Decodes `n` consecutive verification types.
pub fn read_verification_types(s: &[u8], pos: usize, end: usize, n: usize) -> (r: Result<(Vec<VerificationType>, usize), ClassLoadingError>)
    requires
        pos <= end <= s@.len(),
    ensures
        match r {
            Ok((v, p)) => spec_items(pos as int, n as nat, vti_item(s@, end as int)) == Ok::<int, ErrorKind>(p as int)
                && v@.len() == n && items_at(v@, pos as int, vti_item(s@, end as int), vti_check(s@))
                && pos <= p <= end,
            Err(e) => spec_items(pos as int, n as nat, vti_item(s@, end as int)) == Err::<int, ErrorKind>(e.kind),
        },
{
    let ghost item = vti_item(s@, end as int);
    let ghost at = vti_check(s@);
    let mut v: Vec<VerificationType> = Vec::new();
    let mut p = pos;
    let mut i: usize = 0;
    proof { lemma_items_start(pos as int, item, at); }
    while i < n
        invariant
            pos <= p <= end <= s@.len(),
            i <= n,
            v@.len() == i,
            item == vti_item(s@, end as int),
            at == vti_check(s@),
            spec_items(pos as int, n as nat, item) == spec_items(p as int, (n - i) as nat, item),
            forall|w: Seq<VerificationType>| items_at(w, p as int, item, at) ==> #[trigger] items_at(v@ + w, pos as int, item, at),
        decreases n - i,
    {
        let (x, q) = match read_verification_type(s, p, end) {
            Ok(x) => x,
            Err(e) => {
                assert(spec_items(p as int, (n - i) as nat, item) == Err::<int, ErrorKind>(e.kind));
                return Err(e);
            },
        };
        proof { lemma_items_step(v@, x, pos as int, p as int, q as int, item, at); }
        assert(spec_items(p as int, (n - i) as nat, item) == spec_items(q as int, (n - (i + 1)) as nat, item));
        v.push(x);
        p = q;
        i = i + 1;
    }
    proof { lemma_items_end(v@, pos as int, p as int, item, at); }
    Ok((v, p))
}

#[derive(Debug, Clone, Copy, PartialEq, Eq, Structural)]
pub struct SameFrame {
    pub offset_delta: u8,
}

#[derive(Debug, Clone, Copy, PartialEq, Eq, Structural)]
pub struct SameLocalsOneStackItemFrame {
    pub offset_delta: u8,
    pub stack: VerificationType,
}

#[derive(Debug, Clone, Copy, PartialEq, Eq, Structural)]
pub struct SameLocalsOneStackItemExtendedFrame {
    pub offset_delta: u16,
    pub stack: VerificationType,
}

/// A frame that drops the last `chopped` locals (one to three).
#[derive(Debug, Clone, Copy, PartialEq, Eq, Structural)]
pub struct ChopFrame {
    pub offset_delta: u16,
    pub chopped: u8,
}

#[derive(Debug, Clone, Copy, PartialEq, Eq, Structural)]
pub struct SameExtendedFrame {
    pub offset_delta: u16,
}

#[derive(Debug)]
pub struct AppendFrame {
    pub offset_delta: u16,
    pub locals: Vec<VerificationType>,
}

#[derive(Debug)]
pub struct FullFrame {
    pub offset_delta: u16,
    pub locals: Vec<VerificationType>,
    pub stack: Vec<VerificationType>,
}

/// One frame of a `StackMapTable` attribute, in one of its seven shapes.
#[derive(Debug)]
pub enum StackMapTableAttribute {
    Same(SameFrame),
    SameLocalsOneStackItem(SameLocalsOneStackItemFrame),
    SameLocalsOneStackItemExtended(SameLocalsOneStackItemExtendedFrame),
    Chop(ChopFrame),
    SameExtended(SameExtendedFrame),
    Append(AppendFrame),
    Full(FullFrame),
}

/// Where the frame at `pos` ends, or the error met. The frame type byte
/// selects the shape.
pub open spec fn spec_frame(s: Seq<u8>, pos: int, end: int) -> Result<int, ErrorKind> {
    match take(pos, 1, end) {
        Err(e) => Err(e),
        Ok(p) => {
            let t = s[pos];
            if t <= 63 {
                Ok(p)
            } else if t <= 127 {
                spec_vti(s, p, end)
            } else if t <= 246 {
                Err(ErrorKind::ReservedStackFrame(t))
            } else {
                match take(p, 2, end) {
                    Err(e) => Err(e),
                    Ok(q) => if t == 247 {
                        spec_vti(s, q, end)
                    } else if t <= 251 {
                        Ok(q)
                    } else if t <= 254 {
                        spec_items(q, (t - 251) as nat, vti_item(s, end))
                    } else {
                        match take(q, 2, end) {
                            Err(e) => Err(e),
                            Ok(q2) => match spec_items(q2, be16(s, q) as nat, vti_item(s, end)) {
                                Err(e) => Err(e),
                                Ok(q3) => match take(q3, 2, end) {
                                    Err(e) => Err(e),
                                    Ok(q4) => spec_items(q4, be16(s, q3) as nat, vti_item(s, end)),
                                },
                            },
                        }
                    },
                }
            }
        },
    }
}

/// `f` is the frame encoded at `pos`.
pub open spec fn frame_at(f: StackMapTableAttribute, s: Seq<u8>, pos: int, end: int) -> bool {
    let t = s[pos];
    match f {
        StackMapTableAttribute::Same(x) => t <= 63 && x.offset_delta == t,
        StackMapTableAttribute::SameLocalsOneStackItem(x) => 64 <= t <= 127
            && x.offset_delta == t - 64 && vti_at(x.stack, s, pos + 1),
        StackMapTableAttribute::SameLocalsOneStackItemExtended(x) => t == 247
            && x.offset_delta as int == be16(s, pos + 1) && vti_at(x.stack, s, pos + 3),
        StackMapTableAttribute::Chop(x) => 248 <= t <= 250
            && x.offset_delta as int == be16(s, pos + 1) && x.chopped == 251 - t,
        StackMapTableAttribute::SameExtended(x) => t == 251 && x.offset_delta as int == be16(s, pos + 1),
        StackMapTableAttribute::Append(x) => 252 <= t <= 254
            && x.offset_delta as int == be16(s, pos + 1)
            && x.locals@.len() == t - 251
            && items_at(x.locals@, pos + 3, vti_item(s, end), vti_check(s)),
        StackMapTableAttribute::Full(x) => t == 255
            && x.offset_delta as int == be16(s, pos + 1)
            && x.locals@.len() == be16(s, pos + 3)
            && items_at(x.locals@, pos + 5, vti_item(s, end), vti_check(s))
            && match spec_items(pos + 5, be16(s, pos + 3) as nat, vti_item(s, end)) {
                Ok(q) => x.stack@.len() == be16(s, q) && items_at(x.stack@, q + 2, vti_item(s, end), vti_check(s)),
                Err(_) => false,
            },
    }
}

/// Decodes the stack map frame at `pos`.
pub fn read_frame(s: &[u8], pos: usize, end: usize) -> (r: Result<(StackMapTableAttribute, usize), ClassLoadingError>)
    requires
        pos <= end <= s@.len(),
    ensures
        match r {
            Ok((f, p)) => spec_frame(s@, pos as int, end as int) == Ok::<int, ErrorKind>(p as int)
                && frame_at(f, s@, pos as int, end as int) && pos < p <= end,
            Err(e) => spec_frame(s@, pos as int, end as int) == Err::<int, ErrorKind>(e.kind),
        },
{
    let (t, p) = read_u8(s, pos, end)?;
    if t <= 63 {
        return Ok((StackMapTableAttribute::Same(SameFrame { offset_delta: t }), p));
    }
    if t <= 127 {
        let (stack, q) = read_verification_type(s, p, end)?;
        return Ok((StackMapTableAttribute::SameLocalsOneStackItem(SameLocalsOneStackItemFrame { offset_delta: t - 64, stack }), q));
    }
    if t <= 246 {
        return Err(ClassLoadingError::new(ErrorKind::ReservedStackFrame(t)));
    }
    let (offset_delta, q) = read_u16(s, p, end)?;
    if t == 247 {
        let (stack, q2) = read_verification_type(s, q, end)?;
        Ok((StackMapTableAttribute::SameLocalsOneStackItemExtended(SameLocalsOneStackItemExtendedFrame { offset_delta, stack }), q2))
    } else if t <= 250 {
        Ok((StackMapTableAttribute::Chop(ChopFrame { offset_delta, chopped: 251 - t }), q))
    } else if t == 251 {
        Ok((StackMapTableAttribute::SameExtended(SameExtendedFrame { offset_delta }), q))
    } else if t <= 254 {
        let (locals, q2) = read_verification_types(s, q, end, (t - 251) as usize)?;
        Ok((StackMapTableAttribute::Append(AppendFrame { offset_delta, locals }), q2))
    } else {
        let (n_locals, q2) = read_u16(s, q, end)?;
        let (locals, q3) = read_verification_types(s, q2, end, n_locals as usize)?;
        let (n_stack, q4) = read_u16(s, q3, end)?;
        let (stack, q5) = read_verification_types(s, q4, end, n_stack as usize)?;
        Ok((StackMapTableAttribute::Full(FullFrame { offset_delta, locals, stack }), q5))
    }
}

pub open spec fn frame_item(s: Seq<u8>, end: int) -> spec_fn(int) -> Result<int, ErrorKind> {
    |q: int| spec_frame(s, q, end)
}

pub open spec fn frame_check(s: Seq<u8>, end: int) -> spec_fn(StackMapTableAttribute, int) -> bool {
    |f: StackMapTableAttribute, q: int| frame_at(f, s, q, end)
}

/// Where a frame table at `pos` (a `u16` count, then the frames) ends.
pub open spec fn spec_frames(s: Seq<u8>, pos: int, end: int) -> Result<int, ErrorKind> {
    match take(pos, 2, end) {
        Err(e) => Err(e),
        Ok(p) => spec_items(p, be16(s, pos) as nat, frame_item(s, end)),
    }
}

/// `v` are the frames of the table at `pos`.
pub open spec fn frames_at(v: Seq<StackMapTableAttribute>, s: Seq<u8>, pos: int, end: int) -> bool {
    v.len() == be16(s, pos) && items_at(v, pos + 2, frame_item(s, end), frame_check(s, end))
}

/// Decodes a frame table: a `u16` count, then that many frames.
pub fn read_frames(s: &[u8], pos: usize, end: usize) -> (r: Result<(Vec<StackMapTableAttribute>, usize), ClassLoadingError>)
    requires
        pos <= end <= s@.len(),
    ensures
        match r {
            Ok((v, p)) => spec_frames(s@, pos as int, end as int) == Ok::<int, ErrorKind>(p as int)
                && frames_at(v@, s@, pos as int, end as int) && pos < p <= end,
            Err(e) => spec_frames(s@, pos as int, end as int) == Err::<int, ErrorKind>(e.kind),
        },
{
    let (n, p0) = read_u16(s, pos, end)?;
    let n = n as usize;
    let ghost item = frame_item(s@, end as int);
    let ghost at = frame_check(s@, end as int);
    let mut v: Vec<StackMapTableAttribute> = Vec::new();
    let mut p = p0;
    let mut i: usize = 0;
    proof { lemma_items_start(p0 as int, item, at); }
    while i < n
        invariant
            p0 <= p <= end <= s@.len(),
            i <= n,
            v@.len() == i,
            item == frame_item(s@, end as int),
            at == frame_check(s@, end as int),
            spec_frames(s@, pos as int, end as int) == spec_items(p0 as int, n as nat, item),
            spec_items(p0 as int, n as nat, item) == spec_items(p as int, (n - i) as nat, item),
            forall|w: Seq<StackMapTableAttribute>| items_at(w, p as int, item, at) ==> #[trigger] items_at(v@ + w, p0 as int, item, at),
        decreases n - i,
    {
        let (x, q) = match read_frame(s, p, end) {
            Ok(x) => x,
            Err(e) => {
                assert(spec_items(p as int, (n - i) as nat, item) == Err::<int, ErrorKind>(e.kind));
                return Err(e);
            },
        };
        proof { lemma_items_step(v@, x, p0 as int, p as int, q as int, item, at); }
        assert(spec_items(p as int, (n - i) as nat, item) == spec_items(q as int, (n - (i + 1)) as nat, item));
        v.push(x);
        p = q;
        i = i + 1;
    }
    proof { lemma_items_end(v@, p0 as int, p as int, item, at); }
    Ok((v, p))
}

} // verus!
