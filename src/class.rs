use vstd::prelude::*;
use crate::attributes::{attribute_list_at, read_attribute_list, spec_attribute_list, spec_table, Attribute};
use crate::bytes::{be16, be32, eof, read_u16, read_u32, take};
use crate::constant_pool::{pool_at, read_constant_pool, spec_constant_pool, Constant, ConstantPool};
use crate::error::{ClassLoadingError, ErrorKind, FlagScope};
use crate::flags::{within_mask, ClassAccessFlags, FieldAccessFlags, MethodAccessFlags, CLASS_FLAGS_MASK, FIELD_FLAGS_MASK, METHOD_FLAGS_MASK};
use crate::list::{items_at, lemma_items_end, lemma_items_start, lemma_items_step, spec_items};

verus! {

/// The first four bytes of every class file.
pub const CLASS_MAGIC: u32 = 0xCAFEBABE;

#[derive(Debug)]
pub struct FieldInfo {
    pub access_flags: FieldAccessFlags,
    pub name_index: u16,
    pub descriptor_index: u16,
    pub attributes: Vec<Attribute>,
}

#[derive(Debug)]
pub struct MethodInfo {
    pub access_flags: MethodAccessFlags,
    pub name_index: u16,
    pub descriptor_index: u16,
    pub attributes: Vec<Attribute>,
}

/// A direct superinterface: the pool index of its class constant.
#[derive(Debug, Clone, Copy, PartialEq, Eq, Structural)]
pub struct Interface {
    pub interface_index: u16,
}

/// A decoded class file.
#[derive(Debug)]
pub struct Class {
    pub minor_version: u16,
    pub major_version: u16,
    pub constant_pool: ConstantPool,
    pub access_flags: ClassAccessFlags,
    pub this_class: u16,
    pub super_class: u16,
    pub interfaces: Vec<Interface>,
    pub fields: Vec<FieldInfo>,
    pub methods: Vec<MethodInfo>,
    pub attributes: Vec<Attribute>,
}

/// Where a field or method at `pos` ends, or the error met: access flags
/// (checked against `mask` at once), name and descriptor indices, then its
/// attributes.
pub open spec fn spec_member(s: Seq<u8>, pos: int, end: int, cs: Seq<Constant>, mask: u16, scope: FlagScope) -> Result<int, ErrorKind> {
    match take(pos, 2, end) {
        Err(e) => Err(e),
        Ok(p) => if !within_mask(be16(s, pos) as u16, mask) {
            Err(ErrorKind::InvalidAccessFlags(scope, be16(s, pos) as u16))
        } else {
            match take(p, 4, end) {
                Err(e) => Err(e),
                Ok(q) => spec_attribute_list(s, q, end, cs),
            }
        },
    }
}

pub open spec fn field_at(f: FieldInfo, s: Seq<u8>, pos: int, end: int, cs: Seq<Constant>) -> bool {
    &&& f.access_flags.bits as int == be16(s, pos)
    &&& f.name_index as int == be16(s, pos + 2)
    &&& f.descriptor_index as int == be16(s, pos + 4)
    &&& attribute_list_at(f.attributes@, s, pos + 6, end, cs)
}

pub open spec fn method_at(m: MethodInfo, s: Seq<u8>, pos: int, end: int, cs: Seq<Constant>) -> bool {
    &&& m.access_flags.bits as int == be16(s, pos)
    &&& m.name_index as int == be16(s, pos + 2)
    &&& m.descriptor_index as int == be16(s, pos + 4)
    &&& attribute_list_at(m.attributes@, s, pos + 6, end, cs)
}

pub open spec fn field_item(s: Seq<u8>, end: int, cs: Seq<Constant>) -> spec_fn(int) -> Result<int, ErrorKind> {
    |q: int| spec_member(s, q, end, cs, FIELD_FLAGS_MASK, FlagScope::Field)
}

pub open spec fn field_check(s: Seq<u8>, end: int, cs: Seq<Constant>) -> spec_fn(FieldInfo, int) -> bool {
    |f: FieldInfo, q: int| field_at(f, s, q, end, cs)
}

pub open spec fn method_item(s: Seq<u8>, end: int, cs: Seq<Constant>) -> spec_fn(int) -> Result<int, ErrorKind> {
    |q: int| spec_member(s, q, end, cs, METHOD_FLAGS_MASK, FlagScope::Method)
}

pub open spec fn method_check(s: Seq<u8>, end: int, cs: Seq<Constant>) -> spec_fn(MethodInfo, int) -> bool {
    |m: MethodInfo, q: int| method_at(m, s, q, end, cs)
}

/// Where a `u16` count of fields, then the fields, end.
pub open spec fn spec_fields(s: Seq<u8>, pos: int, end: int, cs: Seq<Constant>) -> Result<int, ErrorKind> {
    match take(pos, 2, end) {
        Err(e) => Err(e),
        Ok(p) => spec_items(p, be16(s, pos) as nat, field_item(s, end, cs)),
    }
}

/// Where a `u16` count of methods, then the methods, end.
pub open spec fn spec_methods(s: Seq<u8>, pos: int, end: int, cs: Seq<Constant>) -> Result<int, ErrorKind> {
    match take(pos, 2, end) {
        Err(e) => Err(e),
        Ok(p) => spec_items(p, be16(s, pos) as nat, method_item(s, end, cs)),
    }
}

pub open spec fn fields_at(v: Seq<FieldInfo>, s: Seq<u8>, pos: int, end: int, cs: Seq<Constant>) -> bool {
    v.len() == be16(s, pos) && items_at(v, pos + 2, field_item(s, end, cs), field_check(s, end, cs))
}

pub open spec fn methods_at(v: Seq<MethodInfo>, s: Seq<u8>, pos: int, end: int, cs: Seq<Constant>) -> bool {
    v.len() == be16(s, pos) && items_at(v, pos + 2, method_item(s, end, cs), method_check(s, end, cs))
}

pub open spec fn interface_at(x: Interface, s: Seq<u8>, p: int) -> bool {
    x.interface_index as int == be16(s, p)
}

impl FieldInfo {
    /// Decodes the field at `pos`, resolving attribute names in `pool`.
    pub fn read(s: &[u8], pos: usize, end: usize, pool: &ConstantPool) -> (r: Result<(FieldInfo, usize), ClassLoadingError>)
        requires
            pos <= end <= s@.len(),
            pool.wf(),
        ensures
            match r {
                Ok((f, p)) => spec_member(s@, pos as int, end as int, pool.constants@, FIELD_FLAGS_MASK, FlagScope::Field)
                    == Ok::<int, ErrorKind>(p as int) && field_at(f, s@, pos as int, end as int, pool.constants@) && pos < p <= end,
                Err(e) => spec_member(s@, pos as int, end as int, pool.constants@, FIELD_FLAGS_MASK, FlagScope::Field)
                    == Err::<int, ErrorKind>(e.kind),
            },
    {
        let (bits, p) = read_u16(s, pos, end)?;
        let access_flags = match FieldAccessFlags::from_bits(bits) {
            Some(f) => f,
            None => {
                return Err(ClassLoadingError::new(ErrorKind::InvalidAccessFlags(FlagScope::Field, bits)));
            },
        };
        let (name_index, p) = read_u16(s, p, end)?;
        let (descriptor_index, p) = read_u16(s, p, end)?;
        let (attributes, p) = read_attribute_list(s, p, end, pool)?;
        Ok((FieldInfo { access_flags, name_index, descriptor_index, attributes }, p))
    }
}

impl MethodInfo {
    /// Decodes the method at `pos`, resolving attribute names in `pool`.
    pub fn read(s: &[u8], pos: usize, end: usize, pool: &ConstantPool) -> (r: Result<(MethodInfo, usize), ClassLoadingError>)
        requires
            pos <= end <= s@.len(),
            pool.wf(),
        ensures
            match r {
                Ok((m, p)) => spec_member(s@, pos as int, end as int, pool.constants@, METHOD_FLAGS_MASK, FlagScope::Method)
                    == Ok::<int, ErrorKind>(p as int) && method_at(m, s@, pos as int, end as int, pool.constants@) && pos < p <= end,
                Err(e) => spec_member(s@, pos as int, end as int, pool.constants@, METHOD_FLAGS_MASK, FlagScope::Method)
                    == Err::<int, ErrorKind>(e.kind),
            },
    {
        let (bits, p) = read_u16(s, pos, end)?;
        let access_flags = match MethodAccessFlags::from_bits(bits) {
            Some(f) => f,
            None => {
                return Err(ClassLoadingError::new(ErrorKind::InvalidAccessFlags(FlagScope::Method, bits)));
            },
        };
        let (name_index, p) = read_u16(s, p, end)?;
        let (descriptor_index, p) = read_u16(s, p, end)?;
        let (attributes, p) = read_attribute_list(s, p, end, pool)?;
        Ok((MethodInfo { access_flags, name_index, descriptor_index, attributes }, p))
    }
}

fn read_interface(s: &[u8], pos: usize, end: usize) -> (r: Result<(Interface, usize), ClassLoadingError>)
    requires
        pos <= end <= s@.len(),
    ensures
        match r {
            Ok((x, p)) => take(pos as int, 2, end as int) == Ok::<int, ErrorKind>(p as int) && interface_at(x, s@, pos as int),
            Err(e) => take(pos as int, 2, end as int) == Err::<int, ErrorKind>(e.kind),
        },
{
    let (interface_index, p) = read_u16(s, pos, end)?;
    Ok((Interface { interface_index }, p))
}

/// Decodes a `u16` count, then that many interface indices.
pub fn read_interfaces(s: &[u8], pos: usize, end: usize) -> (r: Result<(Vec<Interface>, usize), ClassLoadingError>)
    requires
        pos <= end <= s@.len(),
    ensures
        match r {
            Ok((v, p)) => spec_table(s@, pos as int, end as int, 2) == Ok::<int, ErrorKind>(p as int)
                && v@.len() == be16(s@, pos as int)
                && (forall|j: int| 0 <= j < v@.len() ==> interface_at(#[trigger] v@[j], s@, pos + 2 + 2 * j))
                && pos < p <= end,
            Err(e) => spec_table(s@, pos as int, end as int, 2) == Err::<int, ErrorKind>(e.kind),
        },
{
    let (n, p0) = read_u16(s, pos, end)?;
    let n = n as usize;
    if 2 * n > end - p0 {
        return Err(eof());
    }
    let mut v: Vec<Interface> = Vec::new();
    let mut p = p0;
    let mut i: usize = 0;
    while i < n
        invariant
            p0 == pos + 2,
            p0 + 2 * n <= end <= s@.len(),
            i <= n,
            p == p0 + 2 * i,
            v@.len() == i,
            forall|j: int| 0 <= j < i ==> interface_at(#[trigger] v@[j], s@, pos + 2 + 2 * j),
        decreases n - i,
    {
        let (x, q) = read_interface(s, p, end)?;
        v.push(x);
        p = q;
        i = i + 1;
    }
    Ok((v, p))
}

/// Decodes a `u16` count, then that many fields.
pub fn read_fields(s: &[u8], pos: usize, end: usize, pool: &ConstantPool) -> (r: Result<(Vec<FieldInfo>, usize), ClassLoadingError>)
    requires
        pos <= end <= s@.len(),
            pool.wf(),
    ensures
        match r {
            Ok((v, p)) => spec_fields(s@, pos as int, end as int, pool.constants@) == Ok::<int, ErrorKind>(p as int)
                && fields_at(v@, s@, pos as int, end as int, pool.constants@) && pos < p <= end,
            Err(e) => spec_fields(s@, pos as int, end as int, pool.constants@) == Err::<int, ErrorKind>(e.kind),
        },
{
    let (n, p0) = read_u16(s, pos, end)?;
    let n = n as usize;
    let ghost item = field_item(s@, end as int, pool.constants@);
    let ghost at = field_check(s@, end as int, pool.constants@);
    let mut v: Vec<FieldInfo> = Vec::new();
    let mut p = p0;
    let mut i: usize = 0;
    proof { lemma_items_start(p0 as int, item, at); }
    while i < n
        invariant
            pos < p0 <= p <= end <= s@.len(),
            p0 == pos + 2,
            pool.wf(),
            i <= n,
            v@.len() == i,
            item == field_item(s@, end as int, pool.constants@),
            at == field_check(s@, end as int, pool.constants@),
            spec_fields(s@, pos as int, end as int, pool.constants@) == spec_items(p0 as int, n as nat, item),
            spec_items(p0 as int, n as nat, item) == spec_items(p as int, (n - i) as nat, item),
            forall|w: Seq<FieldInfo>| items_at(w, p as int, item, at) ==> #[trigger] items_at(v@ + w, p0 as int, item, at),
        decreases n - i,
    {
        let (x, q) = match FieldInfo::read(s, p, end, pool) {
            Ok(x) => x,
            Err(e) => {
                assert(spec_items(p as int, (n - i) as nat, item) == Err::<int, ErrorKind>(e.kind));
                return Err(e);
            },
        };
        proof { lemma_items_step(v@, x, p0 as int, p as int, q as int, item, at); }
        assert(spec_items(p as int, (n - i) as nat, item) == spec_items(q as int, (n - (i + 1)) as nat, item));
        v.push(x);
        p = q;
        i = i + 1;
    }
    proof { lemma_items_end(v@, p0 as int, p as int, item, at); }
    Ok((v, p))
}

/// Decodes a `u16` count, then that many methods.
pub fn read_methods(s: &[u8], pos: usize, end: usize, pool: &ConstantPool) -> (r: Result<(Vec<MethodInfo>, usize), ClassLoadingError>)
    requires
        pos <= end <= s@.len(),
            pool.wf(),
    ensures
        match r {
            Ok((v, p)) => spec_methods(s@, pos as int, end as int, pool.constants@) == Ok::<int, ErrorKind>(p as int)
                && methods_at(v@, s@, pos as int, end as int, pool.constants@) && pos < p <= end,
            Err(e) => spec_methods(s@, pos as int, end as int, pool.constants@) == Err::<int, ErrorKind>(e.kind),
        },
{
    let (n, p0) = read_u16(s, pos, end)?;
    let n = n as usize;
    let ghost item = method_item(s@, end as int, pool.constants@);
    let ghost at = method_check(s@, end as int, pool.constants@);
    let mut v: Vec<MethodInfo> = Vec::new();
    let mut p = p0;
    let mut i: usize = 0;
    proof { lemma_items_start(p0 as int, item, at); }
    while i < n
        invariant
            pos < p0 <= p <= end <= s@.len(),
            p0 == pos + 2,
            pool.wf(),
            i <= n,
            v@.len() == i,
            item == method_item(s@, end as int, pool.constants@),
            at == method_check(s@, end as int, pool.constants@),
            spec_methods(s@, pos as int, end as int, pool.constants@) == spec_items(p0 as int, n as nat, item),
            spec_items(p0 as int, n as nat, item) == spec_items(p as int, (n - i) as nat, item),
            forall|w: Seq<MethodInfo>| items_at(w, p as int, item, at) ==> #[trigger] items_at(v@ + w, p0 as int, item, at),
        decreases n - i,
    {
        let (x, q) = match MethodInfo::read(s, p, end, pool) {
            Ok(x) => x,
            Err(e) => {
                assert(spec_items(p as int, (n - i) as nat, item) == Err::<int, ErrorKind>(e.kind));
                return Err(e);
            },
        };
        proof { lemma_items_step(v@, x, p0 as int, p as int, q as int, item, at); }
        assert(spec_items(p as int, (n - i) as nat, item) == spec_items(q as int, (n - (i + 1)) as nat, item));
        v.push(x);
        p = q;
        i = i + 1;
    }
    proof { lemma_items_end(v@, p0 as int, p as int, item, at); }
    Ok((v, p))
}

/// Where the magic, the version and the constant pool end, or the error met.
pub open spec fn spec_class_head(s: Seq<u8>) -> Result<int, ErrorKind> {
    let end = s.len() as int;
    match take(0, 4, end) {
        Err(e) => Err(e),
        Ok(p) => if be32(s, 0) != 0xCAFEBABE {
            Err(ErrorKind::BadMagic)
        } else {
            match take(p, 4, end) {
                Err(e) => Err(e),
                Ok(q) => spec_constant_pool(s, q, end),
            }
        },
    }
}

/// What follows the constant pool at `pos`, names resolved in the pool `cs`:
/// the end of the input on success, or the error met. Bytes left over after
/// the class attributes are an error.
pub open spec fn spec_class_rest(s: Seq<u8>, pos: int, cs: Seq<Constant>) -> Result<int, ErrorKind> {
    let end = s.len() as int;
    match take(pos, 2, end) {
        Err(e) => Err(e),
        Ok(p) => if !within_mask(be16(s, pos) as u16, CLASS_FLAGS_MASK) {
            Err(ErrorKind::InvalidAccessFlags(FlagScope::Class, be16(s, pos) as u16))
        } else {
            match take(p, 4, end) {
                Err(e) => Err(e),
                Ok(q) => match spec_table(s, q, end, 2) {
                    Err(e) => Err(e),
                    Ok(q1) => match spec_fields(s, q1, end, cs) {
                        Err(e) => Err(e),
                        Ok(q2) => match spec_methods(s, q2, end, cs) {
                            Err(e) => Err(e),
                            Ok(q3) => match spec_attribute_list(s, q3, end, cs) {
                                Err(e) => Err(e),
                                Ok(q4) => if q4 == end { Ok(end) } else { Err(ErrorKind::TrailingBytes((end - q4) as usize)) },
                            },
                        },
                    },
                },
            }
        },
    }
}

/// The part of `c` after its constant pool is what is encoded from `pos`.
pub open spec fn class_rest_at(c: Class, s: Seq<u8>, pos: int) -> bool {
    let end = s.len() as int;
    let cs = c.constant_pool.constants@;
    let q1 = pos + 8 + 2 * be16(s, pos + 6);
    &&& c.access_flags.bits as int == be16(s, pos)
    &&& c.this_class as int == be16(s, pos + 2)
    &&& c.super_class as int == be16(s, pos + 4)
    &&& c.interfaces@.len() == be16(s, pos + 6)
    &&& forall|j: int| 0 <= j < c.interfaces@.len() ==> interface_at(#[trigger] c.interfaces@[j], s, pos + 8 + 2 * j)
    &&& fields_at(c.fields@, s, q1, end, cs)
    &&& match spec_fields(s, q1, end, cs) {
        Ok(q2) => methods_at(c.methods@, s, q2, end, cs) && match spec_methods(s, q2, end, cs) {
            Ok(q3) => attribute_list_at(c.attributes@, s, q3, end, cs),
            Err(_) => false,
        },
        Err(_) => false,
    }
}

/// `c` is the class encoded by all of `s`.
pub open spec fn class_at(c: Class, s: Seq<u8>) -> bool {
    &&& c.minor_version as int == be16(s, 4)
    &&& c.major_version as int == be16(s, 6)
    &&& pool_at(c.constant_pool, s, 8, s.len() as int)
    &&& match spec_class_head(s) {
        Ok(p) => spec_class_rest(s, p, c.constant_pool.constants@) == Ok::<int, ErrorKind>(s.len() as int)
            && class_rest_at(c, s, p),
        Err(_) => false,
    }
}

/// The error that decoding `s` ends in: one in the header or the pool, or
/// one after a pool that the bytes decode to.
pub open spec fn class_error(s: Seq<u8>, e: ErrorKind) -> bool {
    match spec_class_head(s) {
        Err(h) => h == e,
        Ok(p) => exists|pool: ConstantPool| #[trigger] pool_at(pool, s, 8, s.len() as int)
            && spec_class_rest(s, p, pool.constants@) == Err::<int, ErrorKind>(e),
    }
}

impl Class {
    /// Decodes a whole class file. The bytes must hold exactly one class.
    pub fn read(s: &[u8]) -> (r: Result<Class, ClassLoadingError>)
        ensures
            match r {
                Ok(c) => class_at(c, s@),
                Err(e) => class_error(s@, e.kind),
            },
    {
        let end = s.len();
        let (magic, p) = read_u32(s, 0, end)?;
        if magic != CLASS_MAGIC {
            return Err(ClassLoadingError::new(ErrorKind::BadMagic));
        }
        let (minor_version, p) = read_u16(s, p, end)?;
        let (major_version, p) = read_u16(s, p, end)?;
        let (constant_pool, p) = read_constant_pool(s, p, end)?;
        let ghost cs = constant_pool.constants@;
        let ghost head = p as int;
        assert(spec_class_head(s@) == Ok::<int, ErrorKind>(head));
        let r = Class::read_rest(s, p, constant_pool, minor_version, major_version);
        proof {
            if let Err(e) = r {
                assert(pool_at(constant_pool, s@, 8, s@.len() as int));
            }
        }
        r
    }

    fn read_rest(s: &[u8], pos: usize, constant_pool: ConstantPool, minor_version: u16, major_version: u16) -> (r: Result<Class, ClassLoadingError>)
        requires
            pos <= s@.len(),
            constant_pool.wf(),
        ensures
            match r {
                Ok(c) => spec_class_rest(s@, pos as int, constant_pool.constants@) == Ok::<int, ErrorKind>(s@.len() as int)
                    && class_rest_at(c, s@, pos as int) && c.constant_pool == constant_pool
                    && c.minor_version == minor_version && c.major_version == major_version,
                Err(e) => spec_class_rest(s@, pos as int, constant_pool.constants@) == Err::<int, ErrorKind>(e.kind),
            },
    {
        let end = s.len();
        let (bits, p) = read_u16(s, pos, end)?;
        let access_flags = match ClassAccessFlags::from_bits(bits) {
            Some(f) => f,
            None => {
                return Err(ClassLoadingError::new(ErrorKind::InvalidAccessFlags(FlagScope::Class, bits)));
            },
        };
        let (this_class, p) = read_u16(s, p, end)?;
        let (super_class, p) = read_u16(s, p, end)?;
        let (interfaces, p) = read_interfaces(s, p, end)?;
        let (fields, p) = read_fields(s, p, end, &constant_pool)?;
        let (methods, p) = read_methods(s, p, end, &constant_pool)?;
        let (attributes, p) = read_attribute_list(s, p, end, &constant_pool)?;
        if p != end {
            return Err(ClassLoadingError::new(ErrorKind::TrailingBytes(end - p)));
        }
        Ok(Class {
            minor_version,
            major_version,
            constant_pool,
            access_flags,
            this_class,
            super_class,
            interfaces,
            fields,
            methods,
            attributes,
        })
    }
}

} // verus!
