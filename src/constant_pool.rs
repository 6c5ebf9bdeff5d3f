use vstd::prelude::*;
use crate::bytes::{be16, be32, be64, read_bytes, read_i32, read_i64, read_u16, read_u32, read_u64, read_u8, signed32, signed64, take};
use crate::error::{ClassLoadingError, ErrorKind};
use crate::mutf8::{decode_modified_utf8, decode_mutf8, lead_count, lead_width};

verus! {

#[derive(Debug, Clone, Copy, PartialEq, Eq, Structural)]
pub struct ConstClass {
    pub name_index: u16,
}

/// A field, method or interface method reference.
#[derive(Debug, Clone, Copy, PartialEq, Eq, Structural)]
pub struct ConstClassReference {
    pub class_index: u16,
    pub name_and_type_index: u16,
}

#[derive(Debug, Clone, Copy, PartialEq, Eq, Structural)]
pub struct ConstString {
    pub string_index: u16,
}

#[derive(Debug, Clone, Copy, PartialEq, Eq, Structural)]
pub struct ConstInteger {
    pub value: i32,
}

/// A float constant, kept as its IEEE 754 bit pattern.
#[derive(Debug, Clone, Copy, PartialEq, Eq, Structural)]
pub struct ConstFloat {
    pub bits: u32,
}

#[derive(Debug, Clone, Copy, PartialEq, Eq, Structural)]
pub struct ConstLong {
    pub value: i64,
}

/// A double constant, kept as its IEEE 754 bit pattern.
#[derive(Debug, Clone, Copy, PartialEq, Eq, Structural)]
pub struct ConstDouble {
    pub bits: u64,
}

#[derive(Debug, Clone, Copy, PartialEq, Eq, Structural)]
pub struct ConstNameAndType {
    pub name_index: u16,
    pub descriptor_index: u16,
}

#[derive(Debug)]
pub struct ConstUtf8 {
    pub string: String,
}

#[derive(Debug, Clone, Copy, PartialEq, Eq, Structural)]
pub struct ConstMethodHandle {
    pub reference_kind: u8,
    pub reference_index: u16,
}

#[derive(Debug, Clone, Copy, PartialEq, Eq, Structural)]
pub struct ConstMethodType {
    pub descriptor_index: u16,
}

#[derive(Debug, Clone, Copy, PartialEq, Eq, Structural)]
pub struct ConstInvokeDynamic {
    pub bootstrap_method_attr_index: u16,
    pub name_and_type_index: u16,
}

/// A module or package constant (class files of version 53 and later).
#[derive(Debug, Clone, Copy, PartialEq, Eq, Structural)]
pub struct ConstNamed {
    pub name_index: u16,
}

#[derive(Debug)]
pub enum Constant {
    Utf8(ConstUtf8),
    Integer(ConstInteger),
    Float(ConstFloat),
    Long(ConstLong),
    Double(ConstDouble),
    Class(ConstClass),
    String(ConstString),
    Field(ConstClassReference),
    Method(ConstClassReference),
    InterfaceMethod(ConstClassReference),
    NameAndType(ConstNameAndType),
    MethodHandle(ConstMethodHandle),
    MethodType(ConstMethodType),
    InvokeDynamic(ConstInvokeDynamic),
    Module(ConstNamed),
    Package(ConstNamed),
}

/// The number of payload bytes after the tag, for every tag but Utf8's.
pub open spec fn payload_size(tag: u8) -> Option<int> {
    if tag == 3 || tag == 4 || tag == 9 || tag == 10 || tag == 11 || tag == 12 || tag == 18 {
        Some(4)
    } else if tag == 5 || tag == 6 {
        Some(8)
    } else if tag == 7 || tag == 8 || tag == 16 || tag == 19 || tag == 20 {
        Some(2)
    } else if tag == 15 {
        Some(3)
    } else {
        None
    }
}

/// Where the constant at `pos` ends, or the error met decoding it.
pub open spec fn spec_constant(s: Seq<u8>, pos: int, end: int) -> Result<int, ErrorKind> {
    match take(pos, 1, end) {
        Err(e) => Err(e),
        Ok(p) => if s[pos] == 1 {
            match take(p, 2, end) {
                Err(e) => Err(e),
                Ok(q) => match take(q, be16(s, p), end) {
                    Err(e) => Err(e),
                    Ok(r) => if decode_mutf8(s.subrange(q, r)) is Some {
                        Ok(r)
                    } else {
                        Err(ErrorKind::MalformedUtf8)
                    },
                },
            }
        } else {
            match payload_size(s[pos]) {
                Some(n) => take(p, n, end),
                None => Err(ErrorKind::UnknownConstantTag(s[pos])),
            }
        },
    }
}

/// `c` is the constant encoded at `pos` (tag byte first).
pub open spec fn constant_at(c: Constant, s: Seq<u8>, pos: int) -> bool {
    let t = s[pos];
    let p = pos + 1;
    match c {
        Constant::Utf8(u) => t == 1 && decode_mutf8(s.subrange(p + 2, p + 2 + be16(s, p))) == Some(u.string@),
        Constant::Integer(x) => t == 3 && x.value as int == signed32(be32(s, p)),
        Constant::Float(x) => t == 4 && x.bits as int == be32(s, p),
        Constant::Long(x) => t == 5 && x.value as int == signed64(be64(s, p)),
        Constant::Double(x) => t == 6 && x.bits as int == be64(s, p),
        Constant::Class(x) => t == 7 && x.name_index as int == be16(s, p),
        Constant::String(x) => t == 8 && x.string_index as int == be16(s, p),
        Constant::Field(x) => t == 9 && ref_at(x, s, p),
        Constant::Method(x) => t == 10 && ref_at(x, s, p),
        Constant::InterfaceMethod(x) => t == 11 && ref_at(x, s, p),
        Constant::NameAndType(x) => t == 12 && x.name_index as int == be16(s, p)
            && x.descriptor_index as int == be16(s, p + 2),
        Constant::MethodHandle(x) => t == 15 && x.reference_kind == s[p]
            && x.reference_index as int == be16(s, p + 1),
        Constant::MethodType(x) => t == 16 && x.descriptor_index as int == be16(s, p),
        Constant::InvokeDynamic(x) => t == 18 && x.bootstrap_method_attr_index as int == be16(s, p)
            && x.name_and_type_index as int == be16(s, p + 2),
        Constant::Module(x) => t == 19 && x.name_index as int == be16(s, p),
        Constant::Package(x) => t == 20 && x.name_index as int == be16(s, p),
    }
}

pub open spec fn ref_at(x: ConstClassReference, s: Seq<u8>, p: int) -> bool {
    x.class_index as int == be16(s, p) && x.name_and_type_index as int == be16(s, p + 2)
}

/// The number of logical pool slots that a constant takes.
pub open spec fn width(c: Constant) -> int {
    match c {
        Constant::Long(_) | Constant::Double(_) => 2,
        _ => 1,
    }
}

/// The number of logical slots taken by the constant with this tag.
pub open spec fn tag_width(tag: u8) -> int {
    if tag == 5 || tag == 6 { 2 } else { 1 }
}

fn read_ref(s: &[u8], pos: usize, end: usize) -> (r: Result<(ConstClassReference, usize), ClassLoadingError>)
    requires
        pos <= end <= s@.len(),
    ensures
        match r {
            Ok((x, p)) => take(pos as int, 4, end as int) == Ok::<int, ErrorKind>(p as int) && ref_at(x, s@, pos as int),
            Err(e) => take(pos as int, 4, end as int) == Err::<int, ErrorKind>(e.kind),
        },
{
    let (class_index, p) = read_u16(s, pos, end)?;
    let (name_and_type_index, p) = read_u16(s, p, end)?;
    Ok((ConstClassReference { class_index, name_and_type_index }, p))
}

/// Decodes the constant at `pos`.
pub fn read_constant(s: &[u8], pos: usize, end: usize) -> (r: Result<(Constant, usize), ClassLoadingError>)
    requires
        pos <= end <= s@.len(),
    ensures
        match r {
            Ok((c, p)) => spec_constant(s@, pos as int, end as int) == Ok::<int, ErrorKind>(p as int)
                && constant_at(c, s@, pos as int) && width(c) == tag_width(s@[pos as int]),
            Err(e) => spec_constant(s@, pos as int, end as int) == Err::<int, ErrorKind>(e.kind),
        },
{
    let (tag, p) = read_u8(s, pos, end)?;
    if tag == 1 {
        let (len, q) = read_u16(s, p, end)?;
        let (raw, r) = read_bytes(s, q, len as usize, end)?;
        let string = decode_modified_utf8(raw.as_slice())?;
        return Ok((Constant::Utf8(ConstUtf8 { string }), r));
    }
    let c = match tag {
        3 => {
            let (value, p) = read_i32(s, p, end)?;
            (Constant::Integer(ConstInteger { value }), p)
        },
        4 => {
            let (bits, p) = read_u32(s, p, end)?;
            (Constant::Float(ConstFloat { bits }), p)
        },
        5 => {
            let (value, p) = read_i64(s, p, end)?;
            (Constant::Long(ConstLong { value }), p)
        },
        6 => {
            let (bits, p) = read_u64(s, p, end)?;
            (Constant::Double(ConstDouble { bits }), p)
        },
        7 => {
            let (name_index, p) = read_u16(s, p, end)?;
            (Constant::Class(ConstClass { name_index }), p)
        },
        8 => {
            let (string_index, p) = read_u16(s, p, end)?;
            (Constant::String(ConstString { string_index }), p)
        },
        9 => {
            let (x, p) = read_ref(s, p, end)?;
            (Constant::Field(x), p)
        },
        10 => {
            let (x, p) = read_ref(s, p, end)?;
            (Constant::Method(x), p)
        },
        11 => {
            let (x, p) = read_ref(s, p, end)?;
            (Constant::InterfaceMethod(x), p)
        },
        12 => {
            let (name_index, p) = read_u16(s, p, end)?;
            let (descriptor_index, p) = read_u16(s, p, end)?;
            (Constant::NameAndType(ConstNameAndType { name_index, descriptor_index }), p)
        },
        15 => {
            let (reference_kind, p) = read_u8(s, p, end)?;
            let (reference_index, p) = read_u16(s, p, end)?;
            (Constant::MethodHandle(ConstMethodHandle { reference_kind, reference_index }), p)
        },
        16 => {
            let (descriptor_index, p) = read_u16(s, p, end)?;
            (Constant::MethodType(ConstMethodType { descriptor_index }), p)
        },
        18 => {
            let (bootstrap_method_attr_index, p) = read_u16(s, p, end)?;
            let (name_and_type_index, p) = read_u16(s, p, end)?;
            (Constant::InvokeDynamic(ConstInvokeDynamic { bootstrap_method_attr_index, name_and_type_index }), p)
        },
        19 => {
            let (name_index, p) = read_u16(s, p, end)?;
            (Constant::Module(ConstNamed { name_index }), p)
        },
        20 => {
            let (name_index, p) = read_u16(s, p, end)?;
            (Constant::Package(ConstNamed { name_index }), p)
        },
        _ => {
            return Err(ClassLoadingError::new(ErrorKind::UnknownConstantTag(tag)));
        },
    };
    Ok(c)
}

impl ConstUtf8 {
    /// Counts the characters of modified UTF-8 bytes by their lead bytes
    /// (see `lead_width`); fails where the last character is cut short.
    pub fn str_length(bytes: &Vec<u8>) -> (r: Result<usize, ClassLoadingError>)
        ensures
            match r {
                Ok(n) => lead_count(bytes@) == Some(n as nat),
                Err(e) => lead_count(bytes@) is None && e.kind == ErrorKind::MalformedUtf8,
            },
    {
        let n = bytes.len();
        let mut size: usize = 0;
        let mut index: usize = 0;
        assert(bytes@.subrange(0, n as int) =~= bytes@);
        while index < n
            invariant
                n == bytes@.len(),
                index <= n,
                size <= index,
                lead_count(bytes@) == match lead_count(bytes@.subrange(index as int, n as int)) {
                    Some(k) => Some((k + size) as nat),
                    None => None::<nat>,
                },
            decreases n - index,
        {
            let byte = bytes[index];
            let step: usize = if byte >= 0xED {
                6
            } else if byte >= 0xE0 {
                3
            } else if byte >= 0x80 {
                2
            } else {
                1
            };
            let ghost rest = bytes@.subrange(index as int, n as int);
            assert(rest[0] == byte);
            if step > n - index {
                return Err(ClassLoadingError::new(ErrorKind::MalformedUtf8));
            }
            assert(rest.subrange(step as int, rest.len() as int) =~= bytes@.subrange(index + step, n as int));
            size = size + 1;
            index = index + step;
        }
        assert(bytes@.subrange(n as int, n as int) =~= Seq::<u8>::empty());
        Ok(size)
    }
}

/// The 1-based logical index of the `k`-th stored constant: Long and Double
/// constants take two logical slots each.
pub open spec fn slot_of(cs: Seq<Constant>, k: int) -> int
    decreases k,
{
    if k <= 0 {
        1
    } else {
        slot_of(cs, k - 1) + width(cs[k - 1])
    }
}

/// The number of logical slots that the stored constants take.
pub open spec fn logical_len_of(cs: Seq<Constant>) -> int {
    slot_of(cs, cs.len() as int) - 1
}

/// The stored constant whose first logical slot is `i`, if any.
pub open spec fn pool_entry(cs: Seq<Constant>, i: int) -> Option<Constant> {
    if exists|k: int| 0 <= k < cs.len() && #[trigger] slot_of(cs, k) == i {
        Some(cs[choose|k: int| 0 <= k < cs.len() && #[trigger] slot_of(cs, k) == i])
    } else {
        None
    }
}

/// Logical slots grow strictly with the stored position.
pub proof fn lemma_slot_strict(cs: Seq<Constant>, j: int, k: int)
    requires
        0 <= j < k,
    ensures
        slot_of(cs, j) < slot_of(cs, k),
    decreases k,
{
    if j < k - 1 {
        lemma_slot_strict(cs, j, k - 1);
    }
}

/// The logical slot of an entry depends on the entries before it alone.
proof fn lemma_slot_prefix(cs: Seq<Constant>, ds: Seq<Constant>, k: int)
    requires
        0 <= k <= cs.len(),
        k <= ds.len(),
        forall|j: int| 0 <= j < k ==> cs[j] == ds[j],
    ensures
        slot_of(cs, k) == slot_of(ds, k),
    decreases k,
{
    if k > 0 {
        lemma_slot_prefix(cs, ds, k - 1);
    }
}

/// A decoded constant pool: the stored constants, and the logical slot at
/// which each of them starts.
#[derive(Debug)]
pub struct ConstantPool {
    pub constants: Vec<Constant>,
    pub slots: Vec<u16>,
}

impl ConstantPool {
    /// Each stored slot is the logical index of its constant.
    pub open spec fn wf(&self) -> bool {
        &&& self.slots@.len() == self.constants@.len()
        &&& forall|k: int| 0 <= k < self.slots@.len() ==> #[trigger] self.slots@[k] as int == slot_of(self.constants@, k)
    }

    /// The number of logical slots, Long and Double counting twice.
    pub fn logical_len(&self) -> (r: usize)
        requires
            self.wf(),
            logical_len_of(self.constants@) < usize::MAX,
        ensures
            r as int == logical_len_of(self.constants@),
    {
        let n = self.constants.len();
        if n == 0 {
            0
        } else {
            let last = &self.constants[n - 1];
            let w: usize = match last {
                Constant::Long(_) | Constant::Double(_) => 2,
                _ => 1,
            };
            (self.slots[n - 1] as usize) + w - 1
        }
    }

    /// The constant at a 1-based logical index. Fails on zero, past the end,
    /// and on the second slot of a Long or Double.
    pub fn index(&self, i: u16) -> (r: Result<&Constant, ClassLoadingError>)
        requires
            self.wf(),
        ensures
            match r {
                Ok(c) => pool_entry(self.constants@, i as int) == Some(*c),
                Err(e) => pool_entry(self.constants@, i as int) is None
                    && e.kind == ErrorKind::InvalidPoolIndex(i),
            },
    {
        let n = self.slots.len();
        let mut k: usize = 0;
        while k < n
            invariant
                self.wf(),
                n == self.slots@.len(),
                k <= n,
                forall|j: int| 0 <= j < k ==> slot_of(self.constants@, j) != i as int,
            decreases n - k,
        {
            if self.slots[k] == i {
                proof {
                    let cs = self.constants@;
                    let kk = k as int;
                    assert(slot_of(cs, kk) == i as int);
                    let c = choose|m: int| 0 <= m < cs.len() && #[trigger] slot_of(cs, m) == i as int;
                    if c < kk {
                        lemma_slot_strict(cs, c, kk);
                    } else if kk < c {
                        lemma_slot_strict(cs, kk, c);
                    }
                }
                return Ok(&self.constants[k]);
            }
            k = k + 1;
        }
        Err(ClassLoadingError::new(ErrorKind::InvalidPoolIndex(i)))
    }
}

/// Where the entries from logical index `index` up to `count - 1` end, or
/// the error met decoding them. A Long or Double that starts at the last
/// index would take the slot `count`, which the pool does not have.
pub open spec fn spec_pool_entries(s: Seq<u8>, pos: int, end: int, count: int, index: int) -> Result<int, ErrorKind>
    decreases count + 1 - index,
{
    if index >= count {
        Ok(pos)
    } else {
        match spec_constant(s, pos, end) {
            Err(e) => Err(e),
            Ok(p) => if index + tag_width(s[pos]) > count {
                Err(ErrorKind::InvalidPoolIndex(count as u16))
            } else {
                spec_pool_entries(s, p, end, count, index + tag_width(s[pos]))
            },
        }
    }
}

/// `cs` are the constants encoded from `pos`, for logical indices `index`
/// up to `count`.
pub open spec fn pool_entries_at(cs: Seq<Constant>, s: Seq<u8>, pos: int, end: int, count: int, index: int) -> bool
    decreases count + 1 - index,
{
    if index >= count {
        cs.len() == 0
    } else {
        &&& cs.len() > 0
        &&& constant_at(cs[0], s, pos)
        &&& width(cs[0]) == tag_width(s[pos])
        &&& index + width(cs[0]) <= count
        &&& match spec_constant(s, pos, end) {
            Ok(p) => pool_entries_at(cs.drop_first(), s, p, end, count, index + width(cs[0])),
            Err(_) => false,
        }
    }
}

/// Where the constant pool at `pos` (its count first) ends, or the error met.
/// The count is one more than the number of logical slots, so it cannot be 0.
pub open spec fn spec_constant_pool(s: Seq<u8>, pos: int, end: int) -> Result<int, ErrorKind> {
    match take(pos, 2, end) {
        Err(e) => Err(e),
        Ok(p) => if be16(s, pos) == 0 {
            Err(ErrorKind::InvalidPoolIndex(0))
        } else {
            spec_pool_entries(s, p, end, be16(s, pos), 1)
        },
    }
}

/// The logical slots of `cs` are exactly the indices 1 up to `count - 1`.
pub open spec fn slots_cover(cs: Seq<Constant>, count: int) -> bool {
    logical_len_of(cs) == count - 1
}

/// `pool` holds the constants encoded at `pos`.
pub open spec fn pool_at(pool: ConstantPool, s: Seq<u8>, pos: int, end: int) -> bool {
    &&& pool.wf()
    &&& pool_entries_at(pool.constants@, s, pos + 2, end, be16(s, pos), 1)
    &&& slots_cover(pool.constants@, be16(s, pos))
}

/// Decodes the constant pool at `pos`: its count, then the constants for
/// logical indices 1 up to the count.
pub fn read_constant_pool(s: &[u8], pos: usize, end: usize) -> (r: Result<(ConstantPool, usize), ClassLoadingError>)
    requires
        pos <= end <= s@.len(),
    ensures
        match r {
            Ok((pool, p)) => spec_constant_pool(s@, pos as int, end as int) == Ok::<int, ErrorKind>(p as int)
                && pool_at(pool, s@, pos as int, end as int) && pos < p <= end,
            Err(e) => spec_constant_pool(s@, pos as int, end as int) == Err::<int, ErrorKind>(e.kind),
        },
{
    let (count, p0) = read_u16(s, pos, end)?;
    if count == 0 {
        return Err(ClassLoadingError::new(ErrorKind::InvalidPoolIndex(0)));
    }
    let count16 = count;
    let count = count as usize;
    let mut constants: Vec<Constant> = Vec::new();
    let mut slots: Vec<u16> = Vec::new();
    let mut index: usize = 1;
    let mut p = p0;
    assert(spec_constant_pool(s@, pos as int, end as int)
        == spec_pool_entries(s@, p0 as int, end as int, count as int, 1));
    while index < count
        invariant
            p0 <= p <= end <= s@.len(),
            count < 65536,
            1 <= index <= count,
            count16 as usize == count,
            index as int == slot_of(constants@, constants@.len() as int),
            slots@.len() == constants@.len(),
            forall|k: int| 0 <= k < slots@.len() ==> #[trigger] slots@[k] as int == slot_of(constants@, k),
            spec_constant_pool(s@, pos as int, end as int)
                == spec_pool_entries(s@, p0 as int, end as int, count as int, 1),
            spec_pool_entries(s@, p0 as int, end as int, count as int, 1)
                == spec_pool_entries(s@, p as int, end as int, count as int, index as int),
            forall|x: Seq<Constant>| pool_entries_at(x, s@, p as int, end as int, count as int, index as int)
                ==> pool_entries_at(constants@ + x, s@, p0 as int, end as int, count as int, 1),
        decreases count + 1 - index,
    {
        let (c, q) = match read_constant(s, p, end) {
            Ok(x) => x,
            Err(e) => {
                assert(spec_pool_entries(s@, p as int, end as int, count as int, index as int) == Err::<int, ErrorKind>(e.kind));
                return Err(e);
            },
        };
        let w: usize = match c {
            Constant::Long(_) | Constant::Double(_) => 2,
            _ => 1,
        };
        if index + w > count {
            return Err(ClassLoadingError::new(ErrorKind::InvalidPoolIndex(count16)));
        }
        let ghost old_cs = constants@;
        let ghost old_p = p as int;
        let ghost old_index = index as int;
        let ghost cg = c;
        slots.push(index as u16);
        constants.push(c);
        proof {
            lemma_slot_prefix(old_cs, constants@, old_cs.len() as int);
            assert(constants@.last() == cg);
            assert forall|k: int| 0 <= k < slots@.len() implies #[trigger] slots@[k] as int == slot_of(constants@, k) by {
                lemma_slot_prefix(old_cs, constants@, k);
            }
            assert forall|x: Seq<Constant>| pool_entries_at(x, s@, q as int, end as int, count as int, old_index + w)
                implies pool_entries_at(constants@ + x, s@, p0 as int, end as int, count as int, 1) by {
                let y = seq![cg] + x;
                assert(y.drop_first() =~= x);
                assert(pool_entries_at(y, s@, old_p, end as int, count as int, old_index));
                assert(old_cs + y =~= constants@ + x);
            }
        }
        index = index + w;
        p = q;
    }
    proof {
        assert(spec_pool_entries(s@, p as int, end as int, count as int, index as int) == Ok::<int, ErrorKind>(p as int));
        assert(pool_entries_at(Seq::<Constant>::empty(), s@, p as int, end as int, count as int, index as int));
        assert(constants@ + Seq::<Constant>::empty() =~= constants@);
    }
    Ok((ConstantPool { constants, slots }, p))
}

} // verus!
