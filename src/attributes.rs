use vstd::prelude::*;
use crate::annotations::{annotation_at, ev_at, read_annotation, read_element_value, spec_annotation, spec_ev, AnnotationAttribute, AnnotationDefaultAttribute, ParameterAnnotationAttribute};
use crate::bytes::{be16, be32, eof, read_bytes, read_u16, read_u32, read_u8, take};
use crate::constant_pool::{pool_entry, Constant, ConstantPool};
use crate::error::{ClassLoadingError, ErrorKind, FlagScope};
use crate::flags::{within_mask, InnerClassAccessFlags, INNER_CLASS_FLAGS_MASK};
use crate::list::{items_at, lemma_items_end, lemma_items_start, lemma_items_step, spec_items};
use crate::stack_map::{frames_at, read_frames, spec_frames, StackMapTableAttribute};

verus! {

#[derive(Debug, Clone, Copy, PartialEq, Eq, Structural)]
pub struct ConstantValueAttribute {
    pub const_value_index: u16,
}

/// One entry of a `Code` attribute's exception table.
#[derive(Debug, Clone, Copy, PartialEq, Eq, Structural)]
pub struct ExceptionTableAttribute {
    pub start_pc: u16,
    pub end_pc: u16,
    pub handler_pc: u16,
    pub catch_type: u16,
}

#[derive(Debug)]
pub struct CodeAttribute {
    pub max_stack: u16,
    pub max_locals: u16,
    pub code: Vec<u8>,
    pub exception_tables: Vec<ExceptionTableAttribute>,
    pub attributes: Vec<Attribute>,
}

/// One class index of an `Exceptions` attribute.
#[derive(Debug, Clone, Copy, PartialEq, Eq, Structural)]
pub struct ExceptionIndexAttribute {
    pub index: u16,
}

/// One entry of an `InnerClasses` attribute.
#[derive(Debug, Clone, Copy, PartialEq, Eq, Structural)]
pub struct InnerClassAttribute {
    pub inner_class_info_index: u16,
    pub outer_class_info_index: u16,
    pub inner_name_index: u16,
    pub inner_class_access_flags: InnerClassAccessFlags,
}

#[derive(Debug, Clone, Copy, PartialEq, Eq, Structural)]
pub struct EnclosingMethodAttribute {
    pub class_index: u16,
    pub method_index: u16,
}

#[derive(Debug, Clone, Copy, PartialEq, Eq, Structural)]
pub struct SignatureAttribute {
    pub signature_index: u16,
}

#[derive(Debug, Clone, Copy, PartialEq, Eq, Structural)]
pub struct SourceFileAttribute {
    pub sourcefile_index: u16,
}

#[derive(Debug)]
pub struct SourceDebugExtensionAttribute {
    pub debug_info: Vec<u8>,
}

/// One entry of a `LineNumberTable` attribute.
#[derive(Debug, Clone, Copy, PartialEq, Eq, Structural)]
pub struct LineNumberTableAttribute {
    pub start_pc: u16,
    pub line_number: u16,
}

/// One entry of a `LocalVariableTable` attribute.
#[derive(Debug, Clone, Copy, PartialEq, Eq, Structural)]
pub struct LocalVariableTableAttribute {
    pub start_pc: u16,
    pub length: u16,
    pub name_index: u16,
    pub descriptor_index: u16,
    pub index: u16,
}

/// One entry of a `LocalVariableTypeTable` attribute.
#[derive(Debug, Clone, Copy, PartialEq, Eq, Structural)]
pub struct LocalVariableTypeTableAttribute {
    pub start_pc: u16,
    pub length: u16,
    pub name_index: u16,
    pub signature_index: u16,
    pub index: u16,
}

/// One entry of a `BootstrapMethods` attribute.
#[derive(Debug)]
pub struct BootstrapMethodAttribute {
    pub bootstrap_method_ref: u16,
    pub bootstrap_arguments: Vec<u16>,
}

/// An attribute whose name is not one of the known ones, kept as raw bytes.
#[derive(Debug)]
pub struct MiscAttribute {
    pub name_index: u16,
    pub info: Vec<u8>,
}

/// Where a table at `pos` of `k`-byte entries (a `u16` count first) ends.
pub open spec fn spec_table(s: Seq<u8>, pos: int, end: int, k: int) -> Result<int, ErrorKind> {
    match take(pos, 2, end) {
        Err(e) => Err(e),
        Ok(p) => take(p, k * be16(s, pos), end),
    }
}

pub open spec fn exception_entry_at(x: ExceptionTableAttribute, s: Seq<u8>, p: int) -> bool {
    &&& x.start_pc as int == be16(s, p)
    &&& x.end_pc as int == be16(s, p + 2)
    &&& x.handler_pc as int == be16(s, p + 4)
    &&& x.catch_type as int == be16(s, p + 6)
}

pub open spec fn exception_index_at(x: ExceptionIndexAttribute, s: Seq<u8>, p: int) -> bool {
    x.index as int == be16(s, p)
}

pub open spec fn line_number_at(x: LineNumberTableAttribute, s: Seq<u8>, p: int) -> bool {
    x.start_pc as int == be16(s, p) && x.line_number as int == be16(s, p + 2)
}

pub open spec fn local_variable_at(x: LocalVariableTableAttribute, s: Seq<u8>, p: int) -> bool {
    &&& x.start_pc as int == be16(s, p)
    &&& x.length as int == be16(s, p + 2)
    &&& x.name_index as int == be16(s, p + 4)
    &&& x.descriptor_index as int == be16(s, p + 6)
    &&& x.index as int == be16(s, p + 8)
}

pub open spec fn local_variable_type_at(x: LocalVariableTypeTableAttribute, s: Seq<u8>, p: int) -> bool {
    &&& x.start_pc as int == be16(s, p)
    &&& x.length as int == be16(s, p + 2)
    &&& x.name_index as int == be16(s, p + 4)
    &&& x.signature_index as int == be16(s, p + 6)
    &&& x.index as int == be16(s, p + 8)
}

pub open spec fn u16_at(x: u16, s: Seq<u8>, p: int) -> bool {
    x as int == be16(s, p)
}

fn read_exception_entry(s: &[u8], pos: usize, end: usize) -> (r: Result<(ExceptionTableAttribute, usize), ClassLoadingError>)
    requires
        pos <= end <= s@.len(),
    ensures
        match r {
            Ok((x, p)) => take(pos as int, 8, end as int) == Ok::<int, ErrorKind>(p as int) && exception_entry_at(x, s@, pos as int),
            Err(e) => take(pos as int, 8, end as int) == Err::<int, ErrorKind>(e.kind),
        },
{
    let (start_pc, p) = read_u16(s, pos, end)?;
    let (end_pc, p) = read_u16(s, p, end)?;
    let (handler_pc, p) = read_u16(s, p, end)?;
    let (catch_type, p) = read_u16(s, p, end)?;
    Ok((ExceptionTableAttribute { start_pc, end_pc, handler_pc, catch_type }, p))
}

fn read_exception_index(s: &[u8], pos: usize, end: usize) -> (r: Result<(ExceptionIndexAttribute, usize), ClassLoadingError>)
    requires
        pos <= end <= s@.len(),
    ensures
        match r {
            Ok((x, p)) => take(pos as int, 2, end as int) == Ok::<int, ErrorKind>(p as int) && exception_index_at(x, s@, pos as int),
            Err(e) => take(pos as int, 2, end as int) == Err::<int, ErrorKind>(e.kind),
        },
{
    let (index, p) = read_u16(s, pos, end)?;
    Ok((ExceptionIndexAttribute { index }, p))
}

fn read_line_number(s: &[u8], pos: usize, end: usize) -> (r: Result<(LineNumberTableAttribute, usize), ClassLoadingError>)
    requires
        pos <= end <= s@.len(),
    ensures
        match r {
            Ok((x, p)) => take(pos as int, 4, end as int) == Ok::<int, ErrorKind>(p as int) && line_number_at(x, s@, pos as int),
            Err(e) => take(pos as int, 4, end as int) == Err::<int, ErrorKind>(e.kind),
        },
{
    let (start_pc, p) = read_u16(s, pos, end)?;
    let (line_number, p) = read_u16(s, p, end)?;
    Ok((LineNumberTableAttribute { start_pc, line_number }, p))
}

fn read_local_variable(s: &[u8], pos: usize, end: usize) -> (r: Result<(LocalVariableTableAttribute, usize), ClassLoadingError>)
    requires
        pos <= end <= s@.len(),
    ensures
        match r {
            Ok((x, p)) => take(pos as int, 10, end as int) == Ok::<int, ErrorKind>(p as int) && local_variable_at(x, s@, pos as int),
            Err(e) => take(pos as int, 10, end as int) == Err::<int, ErrorKind>(e.kind),
        },
{
    let (start_pc, p) = read_u16(s, pos, end)?;
    let (length, p) = read_u16(s, p, end)?;
    let (name_index, p) = read_u16(s, p, end)?;
    let (descriptor_index, p) = read_u16(s, p, end)?;
    let (index, p) = read_u16(s, p, end)?;
    Ok((LocalVariableTableAttribute { start_pc, length, name_index, descriptor_index, index }, p))
}

fn read_local_variable_type(s: &[u8], pos: usize, end: usize) -> (r: Result<(LocalVariableTypeTableAttribute, usize), ClassLoadingError>)
    requires
        pos <= end <= s@.len(),
    ensures
        match r {
            Ok((x, p)) => take(pos as int, 10, end as int) == Ok::<int, ErrorKind>(p as int) && local_variable_type_at(x, s@, pos as int),
            Err(e) => take(pos as int, 10, end as int) == Err::<int, ErrorKind>(e.kind),
        },
{
    let (start_pc, p) = read_u16(s, pos, end)?;
    let (length, p) = read_u16(s, p, end)?;
    let (name_index, p) = read_u16(s, p, end)?;
    let (signature_index, p) = read_u16(s, p, end)?;
    let (index, p) = read_u16(s, p, end)?;
    Ok((LocalVariableTypeTableAttribute { start_pc, length, name_index, signature_index, index }, p))
}

fn read_u16_entry(s: &[u8], pos: usize, end: usize) -> (r: Result<(u16, usize), ClassLoadingError>)
    requires
        pos <= end <= s@.len(),
    ensures
        match r {
            Ok((x, p)) => take(pos as int, 2, end as int) == Ok::<int, ErrorKind>(p as int) && u16_at(x, s@, pos as int),
            Err(e) => take(pos as int, 2, end as int) == Err::<int, ErrorKind>(e.kind),
        },
{
    read_u16(s, pos, end)
}

/// Decodes a `u16` count, then that many exception table entries.
pub fn read_exception_table(s: &[u8], pos: usize, end: usize) -> (r: Result<(Vec<ExceptionTableAttribute>, usize), ClassLoadingError>)
    requires
        pos <= end <= s@.len(),
    ensures
        match r {
            Ok((v, p)) => spec_table(s@, pos as int, end as int, 8) == Ok::<int, ErrorKind>(p as int)
                && v@.len() == be16(s@, pos as int)
                && (forall|j: int| 0 <= j < v@.len() ==> exception_entry_at(#[trigger] v@[j], s@, pos + 2 + 8 * j))
                && pos < p <= end,
            Err(e) => spec_table(s@, pos as int, end as int, 8) == Err::<int, ErrorKind>(e.kind),
        },
{
    let (n, p0) = read_u16(s, pos, end)?;
    let n = n as usize;
    if 8 * n > end - p0 {
        return Err(eof());
    }
    let mut v: Vec<ExceptionTableAttribute> = Vec::new();
    let mut p = p0;
    let mut i: usize = 0;
    while i < n
        invariant
            p0 == pos + 2,
            p0 + 8 * n <= end <= s@.len(),
            i <= n,
            p == p0 + 8 * i,
            v@.len() == i,
            forall|j: int| 0 <= j < i ==> exception_entry_at(#[trigger] v@[j], s@, pos + 2 + 8 * j),
        decreases n - i,
    {
        let (x, q) = read_exception_entry(s, p, end)?;
        v.push(x);
        p = q;
        i = i + 1;
    }
    Ok((v, p))
}

/// Decodes the body of an `Exceptions` attribute.
pub fn read_exception_indices(s: &[u8], pos: usize, end: usize) -> (r: Result<(Vec<ExceptionIndexAttribute>, usize), ClassLoadingError>)
    requires
        pos <= end <= s@.len(),
    ensures
        match r {
            Ok((v, p)) => spec_table(s@, pos as int, end as int, 2) == Ok::<int, ErrorKind>(p as int)
                && v@.len() == be16(s@, pos as int)
                && (forall|j: int| 0 <= j < v@.len() ==> exception_index_at(#[trigger] v@[j], s@, pos + 2 + 2 * j))
                && pos < p <= end,
            Err(e) => spec_table(s@, pos as int, end as int, 2) == Err::<int, ErrorKind>(e.kind),
        },
{
    let (n, p0) = read_u16(s, pos, end)?;
    let n = n as usize;
    if 2 * n > end - p0 {
        return Err(eof());
    }
    let mut v: Vec<ExceptionIndexAttribute> = Vec::new();
    let mut p = p0;
    let mut i: usize = 0;
    while i < n
        invariant
            p0 == pos + 2,
            p0 + 2 * n <= end <= s@.len(),
            i <= n,
            p == p0 + 2 * i,
            v@.len() == i,
            forall|j: int| 0 <= j < i ==> exception_index_at(#[trigger] v@[j], s@, pos + 2 + 2 * j),
        decreases n - i,
    {
        let (x, q) = read_exception_index(s, p, end)?;
        v.push(x);
        p = q;
        i = i + 1;
    }
    Ok((v, p))
}

/// Decodes the body of a `LineNumberTable` attribute.
pub fn read_line_numbers(s: &[u8], pos: usize, end: usize) -> (r: Result<(Vec<LineNumberTableAttribute>, usize), ClassLoadingError>)
    requires
        pos <= end <= s@.len(),
    ensures
        match r {
            Ok((v, p)) => spec_table(s@, pos as int, end as int, 4) == Ok::<int, ErrorKind>(p as int)
                && v@.len() == be16(s@, pos as int)
                && (forall|j: int| 0 <= j < v@.len() ==> line_number_at(#[trigger] v@[j], s@, pos + 2 + 4 * j))
                && pos < p <= end,
            Err(e) => spec_table(s@, pos as int, end as int, 4) == Err::<int, ErrorKind>(e.kind),
        },
{
    let (n, p0) = read_u16(s, pos, end)?;
    let n = n as usize;
    if 4 * n > end - p0 {
        return Err(eof());
    }
    let mut v: Vec<LineNumberTableAttribute> = Vec::new();
    let mut p = p0;
    let mut i: usize = 0;
    while i < n
        invariant
            p0 == pos + 2,
            p0 + 4 * n <= end <= s@.len(),
            i <= n,
            p == p0 + 4 * i,
            v@.len() == i,
            forall|j: int| 0 <= j < i ==> line_number_at(#[trigger] v@[j], s@, pos + 2 + 4 * j),
        decreases n - i,
    {
        let (x, q) = read_line_number(s, p, end)?;
        v.push(x);
        p = q;
        i = i + 1;
    }
    Ok((v, p))
}

/// Decodes the body of a `LocalVariableTable` attribute.
pub fn read_local_variables(s: &[u8], pos: usize, end: usize) -> (r: Result<(Vec<LocalVariableTableAttribute>, usize), ClassLoadingError>)
    requires
        pos <= end <= s@.len(),
    ensures
        match r {
            Ok((v, p)) => spec_table(s@, pos as int, end as int, 10) == Ok::<int, ErrorKind>(p as int)
                && v@.len() == be16(s@, pos as int)
                && (forall|j: int| 0 <= j < v@.len() ==> local_variable_at(#[trigger] v@[j], s@, pos + 2 + 10 * j))
                && pos < p <= end,
            Err(e) => spec_table(s@, pos as int, end as int, 10) == Err::<int, ErrorKind>(e.kind),
        },
{
    let (n, p0) = read_u16(s, pos, end)?;
    let n = n as usize;
    if 10 * n > end - p0 {
        return Err(eof());
    }
    let mut v: Vec<LocalVariableTableAttribute> = Vec::new();
    let mut p = p0;
    let mut i: usize = 0;
    while i < n
        invariant
            p0 == pos + 2,
            p0 + 10 * n <= end <= s@.len(),
            i <= n,
            p == p0 + 10 * i,
            v@.len() == i,
            forall|j: int| 0 <= j < i ==> local_variable_at(#[trigger] v@[j], s@, pos + 2 + 10 * j),
        decreases n - i,
    {
        let (x, q) = read_local_variable(s, p, end)?;
        v.push(x);
        p = q;
        i = i + 1;
    }
    Ok((v, p))
}

/// Decodes the body of a `LocalVariableTypeTable` attribute.
pub fn read_local_variable_types(s: &[u8], pos: usize, end: usize) -> (r: Result<(Vec<LocalVariableTypeTableAttribute>, usize), ClassLoadingError>)
    requires
        pos <= end <= s@.len(),
    ensures
        match r {
            Ok((v, p)) => spec_table(s@, pos as int, end as int, 10) == Ok::<int, ErrorKind>(p as int)
                && v@.len() == be16(s@, pos as int)
                && (forall|j: int| 0 <= j < v@.len() ==> local_variable_type_at(#[trigger] v@[j], s@, pos + 2 + 10 * j))
                && pos < p <= end,
            Err(e) => spec_table(s@, pos as int, end as int, 10) == Err::<int, ErrorKind>(e.kind),
        },
{
    let (n, p0) = read_u16(s, pos, end)?;
    let n = n as usize;
    if 10 * n > end - p0 {
        return Err(eof());
    }
    let mut v: Vec<LocalVariableTypeTableAttribute> = Vec::new();
    let mut p = p0;
    let mut i: usize = 0;
    while i < n
        invariant
            p0 == pos + 2,
            p0 + 10 * n <= end <= s@.len(),
            i <= n,
            p == p0 + 10 * i,
            v@.len() == i,
            forall|j: int| 0 <= j < i ==> local_variable_type_at(#[trigger] v@[j], s@, pos + 2 + 10 * j),
        decreases n - i,
    {
        let (x, q) = read_local_variable_type(s, p, end)?;
        v.push(x);
        p = q;
        i = i + 1;
    }
    Ok((v, p))
}

/// Decodes a `u16` count, then that many `u16` values.
pub fn read_u16_table(s: &[u8], pos: usize, end: usize) -> (r: Result<(Vec<u16>, usize), ClassLoadingError>)
    requires
        pos <= end <= s@.len(),
    ensures
        match r {
            Ok((v, p)) => spec_table(s@, pos as int, end as int, 2) == Ok::<int, ErrorKind>(p as int)
                && v@.len() == be16(s@, pos as int)
                && (forall|j: int| 0 <= j < v@.len() ==> u16_at(#[trigger] v@[j], s@, pos + 2 + 2 * j))
                && pos < p <= end,
            Err(e) => spec_table(s@, pos as int, end as int, 2) == Err::<int, ErrorKind>(e.kind),
        },
{
    let (n, p0) = read_u16(s, pos, end)?;
    let n = n as usize;
    if 2 * n > end - p0 {
        return Err(eof());
    }
    let mut v: Vec<u16> = Vec::new();
    let mut p = p0;
    let mut i: usize = 0;
    while i < n
        invariant
            p0 == pos + 2,
            p0 + 2 * n <= end <= s@.len(),
            i <= n,
            p == p0 + 2 * i,
            v@.len() == i,
            forall|j: int| 0 <= j < i ==> u16_at(#[trigger] v@[j], s@, pos + 2 + 2 * j),
        decreases n - i,
    {
        let (x, q) = read_u16_entry(s, p, end)?;
        v.push(x);
        p = q;
        i = i + 1;
    }
    Ok((v, p))
}

/// Where the inner class entry at `pos` ends, or the error met: its access
/// flags must lie within the inner class set.
pub open spec fn spec_inner_class(s: Seq<u8>, pos: int, end: int) -> Result<int, ErrorKind> {
    match take(pos, 8, end) {
        Err(e) => Err(e),
        Ok(p) => if within_mask(be16(s, pos + 6) as u16, INNER_CLASS_FLAGS_MASK) {
            Ok(p)
        } else {
            Err(ErrorKind::InvalidAccessFlags(FlagScope::InnerClass, be16(s, pos + 6) as u16))
        },
    }
}

pub open spec fn inner_class_at(x: InnerClassAttribute, s: Seq<u8>, p: int) -> bool {
    &&& x.inner_class_info_index as int == be16(s, p)
    &&& x.outer_class_info_index as int == be16(s, p + 2)
    &&& x.inner_name_index as int == be16(s, p + 4)
    &&& x.inner_class_access_flags.bits as int == be16(s, p + 6)
}

pub open spec fn inner_class_item(s: Seq<u8>, end: int) -> spec_fn(int) -> Result<int, ErrorKind> {
    |q: int| spec_inner_class(s, q, end)
}

pub open spec fn inner_class_check(s: Seq<u8>, end: int) -> spec_fn(InnerClassAttribute, int) -> bool {
    |x: InnerClassAttribute, q: int| inner_class_at(x, s, q)
}

pub open spec fn spec_inner_classes(s: Seq<u8>, pos: int, end: int) -> Result<int, ErrorKind> {
    match take(pos, 2, end) {
        Err(e) => Err(e),
        Ok(p) => spec_items(p, be16(s, pos) as nat, inner_class_item(s, end)),
    }
}

pub open spec fn inner_classes_at(v: Seq<InnerClassAttribute>, s: Seq<u8>, pos: int, end: int) -> bool {
    v.len() == be16(s, pos) && items_at(v, pos + 2, inner_class_item(s, end), inner_class_check(s, end))
}

/// Decodes one inner class entry: three indices, then access flags that
/// must lie within the inner class set.
pub fn read_inner_class(s: &[u8], pos: usize, end: usize) -> (r: Result<(InnerClassAttribute, usize), ClassLoadingError>)
    requires
        pos <= end <= s@.len(),
    ensures
        match r {
            Ok((x, p)) => spec_inner_class(s@, pos as int, end as int) == Ok::<int, ErrorKind>(p as int)
                && inner_class_at(x, s@, pos as int) && pos < p <= end,
            Err(e) => spec_inner_class(s@, pos as int, end as int) == Err::<int, ErrorKind>(e.kind),
        },
{
    let (inner_class_info_index, p) = read_u16(s, pos, end)?;
    let (outer_class_info_index, p) = read_u16(s, p, end)?;
    let (inner_name_index, p) = read_u16(s, p, end)?;
    let (bits, p) = read_u16(s, p, end)?;
    match InnerClassAccessFlags::from_bits(bits) {
        Some(inner_class_access_flags) => Ok((
            InnerClassAttribute { inner_class_info_index, outer_class_info_index, inner_name_index, inner_class_access_flags },
            p,
        )),
        None => Err(ClassLoadingError::new(ErrorKind::InvalidAccessFlags(FlagScope::InnerClass, bits))),
    }
}

/// Where the bootstrap method at `pos` ends: a method reference, then a
/// `u16` count of argument indices.
pub open spec fn spec_bootstrap(s: Seq<u8>, pos: int, end: int) -> Result<int, ErrorKind> {
    match take(pos, 2, end) {
        Err(e) => Err(e),
        Ok(p) => spec_table(s, p, end, 2),
    }
}

pub open spec fn bootstrap_at(x: BootstrapMethodAttribute, s: Seq<u8>, p: int) -> bool {
    &&& x.bootstrap_method_ref as int == be16(s, p)
    &&& x.bootstrap_arguments@.len() == be16(s, p + 2)
    &&& forall|j: int| 0 <= j < x.bootstrap_arguments@.len() ==> u16_at(#[trigger] x.bootstrap_arguments@[j], s, p + 4 + 2 * j)
}

pub open spec fn bootstrap_item(s: Seq<u8>, end: int) -> spec_fn(int) -> Result<int, ErrorKind> {
    |q: int| spec_bootstrap(s, q, end)
}

pub open spec fn bootstrap_check(s: Seq<u8>, end: int) -> spec_fn(BootstrapMethodAttribute, int) -> bool {
    |x: BootstrapMethodAttribute, q: int| bootstrap_at(x, s, q)
}

pub open spec fn spec_bootstraps(s: Seq<u8>, pos: int, end: int) -> Result<int, ErrorKind> {
    match take(pos, 2, end) {
        Err(e) => Err(e),
        Ok(p) => spec_items(p, be16(s, pos) as nat, bootstrap_item(s, end)),
    }
}

pub open spec fn bootstraps_at(v: Seq<BootstrapMethodAttribute>, s: Seq<u8>, pos: int, end: int) -> bool {
    v.len() == be16(s, pos) && items_at(v, pos + 2, bootstrap_item(s, end), bootstrap_check(s, end))
}

fn read_bootstrap(s: &[u8], pos: usize, end: usize) -> (r: Result<(BootstrapMethodAttribute, usize), ClassLoadingError>)
    requires
        pos <= end <= s@.len(),
    ensures
        match r {
            Ok((x, p)) => spec_bootstrap(s@, pos as int, end as int) == Ok::<int, ErrorKind>(p as int)
                && bootstrap_at(x, s@, pos as int) && pos < p <= end,
            Err(e) => spec_bootstrap(s@, pos as int, end as int) == Err::<int, ErrorKind>(e.kind),
        },
{
    let (bootstrap_method_ref, p) = read_u16(s, pos, end)?;
    let (bootstrap_arguments, q) = read_u16_table(s, p, end)?;
    Ok((BootstrapMethodAttribute { bootstrap_method_ref, bootstrap_arguments }, q))
}

pub open spec fn annotation_item(s: Seq<u8>, end: int) -> spec_fn(int) -> Result<int, ErrorKind> {
    |q: int| spec_annotation(s, q, end)
}

pub open spec fn annotation_check(s: Seq<u8>, end: int) -> spec_fn(AnnotationAttribute, int) -> bool {
    |x: AnnotationAttribute, q: int| annotation_at(x, s, q, end)
}

/// Where a `u16` count of annotations, then the annotations, end.
pub open spec fn spec_annotations(s: Seq<u8>, pos: int, end: int) -> Result<int, ErrorKind> {
    match take(pos, 2, end) {
        Err(e) => Err(e),
        Ok(p) => spec_items(p, be16(s, pos) as nat, annotation_item(s, end)),
    }
}

pub open spec fn annotations_at(v: Seq<AnnotationAttribute>, s: Seq<u8>, pos: int, end: int) -> bool {
    v.len() == be16(s, pos) && items_at(v, pos + 2, annotation_item(s, end), annotation_check(s, end))
}

pub open spec fn parameter_at(x: ParameterAnnotationAttribute, s: Seq<u8>, pos: int, end: int) -> bool {
    annotations_at(x.annotations@, s, pos, end)
}

pub open spec fn parameter_item(s: Seq<u8>, end: int) -> spec_fn(int) -> Result<int, ErrorKind> {
    |q: int| spec_annotations(s, q, end)
}

pub open spec fn parameter_check(s: Seq<u8>, end: int) -> spec_fn(ParameterAnnotationAttribute, int) -> bool {
    |x: ParameterAnnotationAttribute, q: int| parameter_at(x, s, q, end)
}

/// Where a `u8` count of parameters, then each parameter's annotations, end.
pub open spec fn spec_parameters(s: Seq<u8>, pos: int, end: int) -> Result<int, ErrorKind> {
    match take(pos, 1, end) {
        Err(e) => Err(e),
        Ok(p) => spec_items(p, s[pos] as nat, parameter_item(s, end)),
    }
}

pub open spec fn parameters_at(v: Seq<ParameterAnnotationAttribute>, s: Seq<u8>, pos: int, end: int) -> bool {
    v.len() == s[pos] && items_at(v, pos + 1, parameter_item(s, end), parameter_check(s, end))
}

/// Decodes the body of an `InnerClasses` attribute.
pub fn read_inner_classes(s: &[u8], pos: usize, end: usize) -> (r: Result<(Vec<InnerClassAttribute>, usize), ClassLoadingError>)
    requires
        pos <= end <= s@.len(),
    ensures
        match r {
            Ok((v, p)) => spec_inner_classes(s@, pos as int, end as int) == Ok::<int, ErrorKind>(p as int)
                && inner_classes_at(v@, s@, pos as int, end as int) && pos < p <= end,
            Err(e) => spec_inner_classes(s@, pos as int, end as int) == Err::<int, ErrorKind>(e.kind),
        },
{
    let (n, p0) = read_u16(s, pos, end)?;
    let n = n as usize;
    let ghost item = inner_class_item(s@, end as int);
    let ghost at = inner_class_check(s@, end as int);
    let mut v: Vec<InnerClassAttribute> = Vec::new();
    let mut p = p0;
    let mut i: usize = 0;
    proof { lemma_items_start(p0 as int, item, at); }
    while i < n
        invariant
            pos < p0 <= p <= end <= s@.len(),
            p0 == pos + 2,
            i <= n,
            v@.len() == i,
            item == inner_class_item(s@, end as int),
            at == inner_class_check(s@, end as int),
            spec_inner_classes(s@, pos as int, end as int) == spec_items(p0 as int, n as nat, item),
            spec_items(p0 as int, n as nat, item) == spec_items(p as int, (n - i) as nat, item),
            forall|w: Seq<InnerClassAttribute>| items_at(w, p as int, item, at) ==> #[trigger] items_at(v@ + w, p0 as int, item, at),
        decreases n - i,
    {
        let (x, q) = match read_inner_class(s, p, end) {
            Ok(x) => x,
            Err(e) => {
                assert(spec_items(p as int, (n - i) as nat, item) == Err::<int, ErrorKind>(e.kind));
                return Err(e);
            },
        };
        proof { lemma_items_step(v@, x, p0 as int, p as int, q as int, item, at); }
        assert(spec_items(p as int, (n - i) as nat, item) == spec_items(q as int, (n - (i + 1)) as nat, item));
        v.push(x);
        p = q;
        i = i + 1;
    }
    proof { lemma_items_end(v@, p0 as int, p as int, item, at); }
    Ok((v, p))
}

/// Decodes the body of a `BootstrapMethods` attribute.
pub fn read_bootstraps(s: &[u8], pos: usize, end: usize) -> (r: Result<(Vec<BootstrapMethodAttribute>, usize), ClassLoadingError>)
    requires
        pos <= end <= s@.len(),
    ensures
        match r {
            Ok((v, p)) => spec_bootstraps(s@, pos as int, end as int) == Ok::<int, ErrorKind>(p as int)
                && bootstraps_at(v@, s@, pos as int, end as int) && pos < p <= end,
            Err(e) => spec_bootstraps(s@, pos as int, end as int) == Err::<int, ErrorKind>(e.kind),
        },
{
    let (n, p0) = read_u16(s, pos, end)?;
    let n = n as usize;
    let ghost item = bootstrap_item(s@, end as int);
    let ghost at = bootstrap_check(s@, end as int);
    let mut v: Vec<BootstrapMethodAttribute> = Vec::new();
    let mut p = p0;
    let mut i: usize = 0;
    proof { lemma_items_start(p0 as int, item, at); }
    while i < n
        invariant
            pos < p0 <= p <= end <= s@.len(),
            p0 == pos + 2,
            i <= n,
            v@.len() == i,
            item == bootstrap_item(s@, end as int),
            at == bootstrap_check(s@, end as int),
            spec_bootstraps(s@, pos as int, end as int) == spec_items(p0 as int, n as nat, item),
            spec_items(p0 as int, n as nat, item) == spec_items(p as int, (n - i) as nat, item),
            forall|w: Seq<BootstrapMethodAttribute>| items_at(w, p as int, item, at) ==> #[trigger] items_at(v@ + w, p0 as int, item, at),
        decreases n - i,
    {
        let (x, q) = match read_bootstrap(s, p, end) {
            Ok(x) => x,
            Err(e) => {
                assert(spec_items(p as int, (n - i) as nat, item) == Err::<int, ErrorKind>(e.kind));
                return Err(e);
            },
        };
        proof { lemma_items_step(v@, x, p0 as int, p as int, q as int, item, at); }
        assert(spec_items(p as int, (n - i) as nat, item) == spec_items(q as int, (n - (i + 1)) as nat, item));
        v.push(x);
        p = q;
        i = i + 1;
    }
    proof { lemma_items_end(v@, p0 as int, p as int, item, at); }
    Ok((v, p))
}

/// Decodes a `u16` count, then that many annotations.
pub fn read_annotations(s: &[u8], pos: usize, end: usize) -> (r: Result<(Vec<AnnotationAttribute>, usize), ClassLoadingError>)
    requires
        pos <= end <= s@.len(),
    ensures
        match r {
            Ok((v, p)) => spec_annotations(s@, pos as int, end as int) == Ok::<int, ErrorKind>(p as int)
                && annotations_at(v@, s@, pos as int, end as int) && pos < p <= end,
            Err(e) => spec_annotations(s@, pos as int, end as int) == Err::<int, ErrorKind>(e.kind),
        },
{
    let (n, p0) = read_u16(s, pos, end)?;
    let n = n as usize;
    let ghost item = annotation_item(s@, end as int);
    let ghost at = annotation_check(s@, end as int);
    let mut v: Vec<AnnotationAttribute> = Vec::new();
    let mut p = p0;
    let mut i: usize = 0;
    proof { lemma_items_start(p0 as int, item, at); }
    while i < n
        invariant
            pos < p0 <= p <= end <= s@.len(),
            p0 == pos + 2,
            i <= n,
            v@.len() == i,
            item == annotation_item(s@, end as int),
            at == annotation_check(s@, end as int),
            spec_annotations(s@, pos as int, end as int) == spec_items(p0 as int, n as nat, item),
            spec_items(p0 as int, n as nat, item) == spec_items(p as int, (n - i) as nat, item),
            forall|w: Seq<AnnotationAttribute>| items_at(w, p as int, item, at) ==> #[trigger] items_at(v@ + w, p0 as int, item, at),
        decreases n - i,
    {
        let (x, q) = match read_annotation(s, p, end) {
            Ok(x) => x,
            Err(e) => {
                assert(spec_items(p as int, (n - i) as nat, item) == Err::<int, ErrorKind>(e.kind));
                return Err(e);
            },
        };
        proof { lemma_items_step(v@, x, p0 as int, p as int, q as int, item, at); }
        assert(spec_items(p as int, (n - i) as nat, item) == spec_items(q as int, (n - (i + 1)) as nat, item));
        v.push(x);
        p = q;
        i = i + 1;
    }
    proof { lemma_items_end(v@, p0 as int, p as int, item, at); }
    Ok((v, p))
}

fn read_parameter(s: &[u8], pos: usize, end: usize) -> (r: Result<(ParameterAnnotationAttribute, usize), ClassLoadingError>)
    requires
        pos <= end <= s@.len(),
    ensures
        match r {
            Ok((x, p)) => spec_annotations(s@, pos as int, end as int) == Ok::<int, ErrorKind>(p as int)
                && parameter_at(x, s@, pos as int, end as int) && pos < p <= end,
            Err(e) => spec_annotations(s@, pos as int, end as int) == Err::<int, ErrorKind>(e.kind),
        },
{
    let (annotations, p) = read_annotations(s, pos, end)?;
    Ok((ParameterAnnotationAttribute { annotations }, p))
}

/// Decodes a `u8` count of parameters, then the annotations of each.
pub fn read_parameters(s: &[u8], pos: usize, end: usize) -> (r: Result<(Vec<ParameterAnnotationAttribute>, usize), ClassLoadingError>)
    requires
        pos <= end <= s@.len(),
    ensures
        match r {
            Ok((v, p)) => spec_parameters(s@, pos as int, end as int) == Ok::<int, ErrorKind>(p as int)
                && parameters_at(v@, s@, pos as int, end as int) && pos < p <= end,
            Err(e) => spec_parameters(s@, pos as int, end as int) == Err::<int, ErrorKind>(e.kind),
        },
{
    let (n, p0) = read_u8(s, pos, end)?;
    let n = n as usize;
    let ghost item = parameter_item(s@, end as int);
    let ghost at = parameter_check(s@, end as int);
    let mut v: Vec<ParameterAnnotationAttribute> = Vec::new();
    let mut p = p0;
    let mut i: usize = 0;
    proof { lemma_items_start(p0 as int, item, at); }
    while i < n
        invariant
            pos < p0 <= p <= end <= s@.len(),
            p0 == pos + 1,
            i <= n,
            v@.len() == i,
            item == parameter_item(s@, end as int),
            at == parameter_check(s@, end as int),
            spec_parameters(s@, pos as int, end as int) == spec_items(p0 as int, n as nat, item),
            spec_items(p0 as int, n as nat, item) == spec_items(p as int, (n - i) as nat, item),
            forall|w: Seq<ParameterAnnotationAttribute>| items_at(w, p as int, item, at) ==> #[trigger] items_at(v@ + w, p0 as int, item, at),
        decreases n - i,
    {
        let (x, q) = match read_parameter(s, p, end) {
            Ok(x) => x,
            Err(e) => {
                assert(spec_items(p as int, (n - i) as nat, item) == Err::<int, ErrorKind>(e.kind));
                return Err(e);
            },
        };
        proof { lemma_items_step(v@, x, p0 as int, p as int, q as int, item, at); }
        assert(spec_items(p as int, (n - i) as nat, item) == spec_items(q as int, (n - (i + 1)) as nat, item));
        v.push(x);
        p = q;
        i = i + 1;
    }
    proof { lemma_items_end(v@, p0 as int, p as int, item, at); }
    Ok((v, p))
}

/// A decoded attribute. Known names give their own variant; any other name
/// is kept as `Misc`.
#[derive(Debug)]
pub enum Attribute {
    ConstantValue(ConstantValueAttribute),
    Code(CodeAttribute),
    StackMapTable(Vec<StackMapTableAttribute>),
    Exceptions(Vec<ExceptionIndexAttribute>),
    InnerClasses(Vec<InnerClassAttribute>),
    EnclosingMethod(EnclosingMethodAttribute),
    Synthetic,
    Signature(SignatureAttribute),
    SourceFile(SourceFileAttribute),
    SourceDebugExtension(SourceDebugExtensionAttribute),
    LineNumberTable(Vec<LineNumberTableAttribute>),
    LocalVariableTable(Vec<LocalVariableTableAttribute>),
    LocalVariableTypeTable(Vec<LocalVariableTypeTableAttribute>),
    Deprecated,
    RuntimeVisibleAnnotations(Vec<AnnotationAttribute>),
    RuntimeInvisibleAnnotations(Vec<AnnotationAttribute>),
    RuntimeVisibleParameterAnnotations(Vec<ParameterAnnotationAttribute>),
    RuntimeInvisibleParameterAnnotations(Vec<ParameterAnnotationAttribute>),
    AnnotationDefault(AnnotationDefaultAttribute),
    BootstrapMethods(Vec<BootstrapMethodAttribute>),
    Misc(MiscAttribute),
}

/// The known attribute names, and `Other` for the rest.
#[derive(Debug, Clone, Copy, PartialEq, Eq, Structural)]
pub enum AttributeKind {
    ConstantValue,
    Code,
    StackMapTable,
    Exceptions,
    InnerClasses,
    EnclosingMethod,
    Synthetic,
    Signature,
    SourceFile,
    SourceDebugExtension,
    LineNumberTable,
    LocalVariableTable,
    LocalVariableTypeTable,
    Deprecated,
    RuntimeVisibleAnnotations,
    RuntimeInvisibleAnnotations,
    RuntimeVisibleParameterAnnotations,
    RuntimeInvisibleParameterAnnotations,
    AnnotationDefault,
    BootstrapMethods,
    Other,
}


/// The kind of an attribute with this name.
pub open spec fn attribute_kind(name: Seq<char>) -> AttributeKind {
    if name == "ConstantValue"@ {
        AttributeKind::ConstantValue
    } else if name == "Code"@ {
        AttributeKind::Code
    } else if name == "StackMapTable"@ {
        AttributeKind::StackMapTable
    } else if name == "Exceptions"@ {
        AttributeKind::Exceptions
    } else if name == "InnerClasses"@ {
        AttributeKind::InnerClasses
    } else if name == "EnclosingMethod"@ {
        AttributeKind::EnclosingMethod
    } else if name == "Synthetic"@ {
        AttributeKind::Synthetic
    } else if name == "Signature"@ {
        AttributeKind::Signature
    } else if name == "SourceFile"@ {
        AttributeKind::SourceFile
    } else if name == "SourceDebugExtension"@ {
        AttributeKind::SourceDebugExtension
    } else if name == "LineNumberTable"@ {
        AttributeKind::LineNumberTable
    } else if name == "LocalVariableTable"@ {
        AttributeKind::LocalVariableTable
    } else if name == "LocalVariableTypeTable"@ {
        AttributeKind::LocalVariableTypeTable
    } else if name == "Deprecated"@ {
        AttributeKind::Deprecated
    } else if name == "RuntimeVisibleAnnotations"@ {
        AttributeKind::RuntimeVisibleAnnotations
    } else if name == "RuntimeInvisibleAnnotations"@ {
        AttributeKind::RuntimeInvisibleAnnotations
    } else if name == "RuntimeVisibleParameterAnnotations"@ {
        AttributeKind::RuntimeVisibleParameterAnnotations
    } else if name == "RuntimeInvisibleParameterAnnotations"@ {
        AttributeKind::RuntimeInvisibleParameterAnnotations
    } else if name == "AnnotationDefault"@ {
        AttributeKind::AnnotationDefault
    } else if name == "BootstrapMethods"@ {
        AttributeKind::BootstrapMethods
    } else {
        AttributeKind::Other
    }
}


/// The attribute name equals `known`.
fn name_is(name: &String, known: &str) -> (r: bool)
    ensures
        r == (name@ == known@),
{
    let k = known.to_owned();
    name.eq(&k)
}

/// The kind of an attribute with this name.
pub fn kind_of(name: &String) -> (r: AttributeKind)
    ensures
        r == attribute_kind(name@),
{
    if name_is(name, "ConstantValue") {
        AttributeKind::ConstantValue
    } else if name_is(name, "Code") {
        AttributeKind::Code
    } else if name_is(name, "StackMapTable") {
        AttributeKind::StackMapTable
    } else if name_is(name, "Exceptions") {
        AttributeKind::Exceptions
    } else if name_is(name, "InnerClasses") {
        AttributeKind::InnerClasses
    } else if name_is(name, "EnclosingMethod") {
        AttributeKind::EnclosingMethod
    } else if name_is(name, "Synthetic") {
        AttributeKind::Synthetic
    } else if name_is(name, "Signature") {
        AttributeKind::Signature
    } else if name_is(name, "SourceFile") {
        AttributeKind::SourceFile
    } else if name_is(name, "SourceDebugExtension") {
        AttributeKind::SourceDebugExtension
    } else if name_is(name, "LineNumberTable") {
        AttributeKind::LineNumberTable
    } else if name_is(name, "LocalVariableTable") {
        AttributeKind::LocalVariableTable
    } else if name_is(name, "LocalVariableTypeTable") {
        AttributeKind::LocalVariableTypeTable
    } else if name_is(name, "Deprecated") {
        AttributeKind::Deprecated
    } else if name_is(name, "RuntimeVisibleAnnotations") {
        AttributeKind::RuntimeVisibleAnnotations
    } else if name_is(name, "RuntimeInvisibleAnnotations") {
        AttributeKind::RuntimeInvisibleAnnotations
    } else if name_is(name, "RuntimeVisibleParameterAnnotations") {
        AttributeKind::RuntimeVisibleParameterAnnotations
    } else if name_is(name, "RuntimeInvisibleParameterAnnotations") {
        AttributeKind::RuntimeInvisibleParameterAnnotations
    } else if name_is(name, "AnnotationDefault") {
        AttributeKind::AnnotationDefault
    } else if name_is(name, "BootstrapMethods") {
        AttributeKind::BootstrapMethods
    } else {
        AttributeKind::Other
    }
}


/// Where the attribute at `pos` ends, or the error met. The header is a name
/// index and a body length; the name must be a Utf8 constant of the pool
/// `cs`, and a known attribute must use its whole body.
pub open spec fn spec_attribute(s: Seq<u8>, pos: int, end: int, cs: Seq<Constant>) -> Result<int, ErrorKind>
    decreases end - pos, 0int,
{
    match take(pos, 6, end) {
        Err(e) => Err(e),
        Ok(p) => {
            let ni = be16(s, pos);
            match pool_entry(cs, ni) {
                None => Err(ErrorKind::InvalidPoolIndex(ni as u16)),
                Some(Constant::Utf8(u)) => match take(p, be32(s, pos + 2), end) {
                    Err(e) => Err(e),
                    Ok(bend) => match spec_body(attribute_kind(u.string@), s, p, bend, cs) {
                        Err(e) => Err(e),
                        Ok(q) => if q == bend {
                            Ok(bend)
                        } else {
                            Err(ErrorKind::TrailingAttributeBytes(ni as u16, (bend - q) as u32))
                        },
                    },
                },
                Some(_) => Err(ErrorKind::UnknownAttributeStructure(ni as u16)),
            }
        },
    }
}

/// Where the body of an attribute of kind `kind` at `pos` ends, or the error
/// met; `end` is the end of the declared body. A debug extension and an
/// attribute of unknown name take the whole body as raw bytes.
pub open spec fn spec_body(kind: AttributeKind, s: Seq<u8>, pos: int, end: int, cs: Seq<Constant>) -> Result<int, ErrorKind>
    decreases end - pos, 1int,
{
    match kind {
        AttributeKind::ConstantValue | AttributeKind::Signature | AttributeKind::SourceFile => take(pos, 2, end),
        AttributeKind::EnclosingMethod => take(pos, 4, end),
        AttributeKind::Synthetic | AttributeKind::Deprecated => Ok(pos),
        AttributeKind::Exceptions => spec_table(s, pos, end, 2),
        AttributeKind::LineNumberTable => spec_table(s, pos, end, 4),
        AttributeKind::LocalVariableTable | AttributeKind::LocalVariableTypeTable => spec_table(s, pos, end, 10),
        AttributeKind::InnerClasses => spec_inner_classes(s, pos, end),
        AttributeKind::StackMapTable => spec_frames(s, pos, end),
        AttributeKind::RuntimeVisibleAnnotations | AttributeKind::RuntimeInvisibleAnnotations => spec_annotations(s, pos, end),
        AttributeKind::RuntimeVisibleParameterAnnotations
        | AttributeKind::RuntimeInvisibleParameterAnnotations => spec_parameters(s, pos, end),
        AttributeKind::AnnotationDefault => spec_ev(s, pos, end),
        AttributeKind::BootstrapMethods => spec_bootstraps(s, pos, end),
        AttributeKind::Code => match take(pos, 8, end) {
            Err(e) => Err(e),
            Ok(p) => match take(p, be32(s, pos + 4), end) {
                Err(e) => Err(e),
                Ok(q) => match spec_table(s, q, end, 8) {
                    Err(e) => Err(e),
                    Ok(q2) => match take(q2, 2, end) {
                        Err(e) => Err(e),
                        Ok(q3) => spec_attributes(s, q3, end, cs, be16(s, q2)),
                    },
                },
            },
        },
        AttributeKind::SourceDebugExtension | AttributeKind::Other => Ok(end),
    }
}

/// Where `n` attributes from `pos` end, or the first error met.
pub open spec fn spec_attributes(s: Seq<u8>, pos: int, end: int, cs: Seq<Constant>, n: int) -> Result<int, ErrorKind>
    decreases end - pos, n,
{
    if n <= 0 {
        Ok(pos)
    } else {
        match spec_attribute(s, pos, end, cs) {
            Err(e) => Err(e),
            Ok(p) => if pos < p <= end { spec_attributes(s, p, end, cs, n - 1) } else { Err(ErrorKind::UnexpectedEof) },
        }
    }
}

/// Where a `u16` count of attributes, then the attributes, end.
pub open spec fn spec_attribute_list(s: Seq<u8>, pos: int, end: int, cs: Seq<Constant>) -> Result<int, ErrorKind> {
    match take(pos, 2, end) {
        Err(e) => Err(e),
        Ok(p) => spec_attributes(s, p, end, cs, be16(s, pos)),
    }
}

/// `a` is the attribute encoded at `pos`, its name resolved in the pool `cs`.
pub open spec fn attribute_at(a: Attribute, s: Seq<u8>, pos: int, end: int, cs: Seq<Constant>) -> bool
    decreases end - pos, 0int,
{
    let ni = be16(s, pos);
    let p = pos + 6;
    let bend = p + be32(s, pos + 2);
    &&& p <= bend <= end
    &&& match pool_entry(cs, ni) {
        Some(Constant::Utf8(u)) => body_at(a, attribute_kind(u.string@), ni, s, p, bend, cs),
        _ => false,
    }
}

/// `a` is the attribute of kind `kind` and name index `ni` whose body spans
/// `pos` to `end`.
pub open spec fn body_at(a: Attribute, kind: AttributeKind, ni: int, s: Seq<u8>, pos: int, end: int, cs: Seq<Constant>) -> bool
    decreases end - pos, 1int,
{
    match a {
        Attribute::ConstantValue(x) => kind == AttributeKind::ConstantValue && x.const_value_index as int == be16(s, pos),
        Attribute::Code(c) => kind == AttributeKind::Code && code_at(c, s, pos, end, cs),
        Attribute::StackMapTable(v) => kind == AttributeKind::StackMapTable && frames_at(v@, s, pos, end),
        Attribute::Exceptions(v) => kind == AttributeKind::Exceptions && v@.len() == be16(s, pos)
            && forall|j: int| 0 <= j < v@.len() ==> exception_index_at(#[trigger] v@[j], s, pos + 2 + 2 * j),
        Attribute::InnerClasses(v) => kind == AttributeKind::InnerClasses && inner_classes_at(v@, s, pos, end),
        Attribute::EnclosingMethod(x) => kind == AttributeKind::EnclosingMethod
            && x.class_index as int == be16(s, pos) && x.method_index as int == be16(s, pos + 2),
        Attribute::Synthetic => kind == AttributeKind::Synthetic,
        Attribute::Signature(x) => kind == AttributeKind::Signature && x.signature_index as int == be16(s, pos),
        Attribute::SourceFile(x) => kind == AttributeKind::SourceFile && x.sourcefile_index as int == be16(s, pos),
        Attribute::SourceDebugExtension(x) => kind == AttributeKind::SourceDebugExtension
            && x.debug_info@ == s.subrange(pos, end),
        Attribute::LineNumberTable(v) => kind == AttributeKind::LineNumberTable && v@.len() == be16(s, pos)
            && forall|j: int| 0 <= j < v@.len() ==> line_number_at(#[trigger] v@[j], s, pos + 2 + 4 * j),
        Attribute::LocalVariableTable(v) => kind == AttributeKind::LocalVariableTable && v@.len() == be16(s, pos)
            && forall|j: int| 0 <= j < v@.len() ==> local_variable_at(#[trigger] v@[j], s, pos + 2 + 10 * j),
        Attribute::LocalVariableTypeTable(v) => kind == AttributeKind::LocalVariableTypeTable && v@.len() == be16(s, pos)
            && forall|j: int| 0 <= j < v@.len() ==> local_variable_type_at(#[trigger] v@[j], s, pos + 2 + 10 * j),
        Attribute::Deprecated => kind == AttributeKind::Deprecated,
        Attribute::RuntimeVisibleAnnotations(v) => kind == AttributeKind::RuntimeVisibleAnnotations
            && annotations_at(v@, s, pos, end),
        Attribute::RuntimeInvisibleAnnotations(v) => kind == AttributeKind::RuntimeInvisibleAnnotations
            && annotations_at(v@, s, pos, end),
        Attribute::RuntimeVisibleParameterAnnotations(v) => kind == AttributeKind::RuntimeVisibleParameterAnnotations
            && parameters_at(v@, s, pos, end),
        Attribute::RuntimeInvisibleParameterAnnotations(v) => kind == AttributeKind::RuntimeInvisibleParameterAnnotations
            && parameters_at(v@, s, pos, end),
        Attribute::AnnotationDefault(x) => kind == AttributeKind::AnnotationDefault && ev_at(x.default_value, s, pos, end),
        Attribute::BootstrapMethods(v) => kind == AttributeKind::BootstrapMethods && bootstraps_at(v@, s, pos, end),
        Attribute::Misc(m) => kind == AttributeKind::Other && m.name_index as int == ni && m.info@ == s.subrange(pos, end),
    }
}

/// `c` is the `Code` body encoded from `pos` to `end`.
pub open spec fn code_at(c: CodeAttribute, s: Seq<u8>, pos: int, end: int, cs: Seq<Constant>) -> bool
    decreases end - pos, 0int,
{
    let q = pos + 8 + be32(s, pos + 4);
    let q2 = q + 2 + 8 * be16(s, q);
    &&& pos + 8 <= q
    &&& q2 + 2 <= end
    &&& c.max_stack as int == be16(s, pos)
    &&& c.max_locals as int == be16(s, pos + 2)
    &&& c.code@ == s.subrange(pos + 8, q)
    &&& c.exception_tables@.len() == be16(s, q)
    &&& forall|j: int| 0 <= j < c.exception_tables@.len() ==> exception_entry_at(#[trigger] c.exception_tables@[j], s, q + 2 + 8 * j)
    &&& c.attributes@.len() == be16(s, q2)
    &&& attributes_at(c.attributes@, s, q2 + 2, end, cs)
}

/// `v` are the attributes encoded one after another from `pos`.
pub open spec fn attributes_at(v: Seq<Attribute>, s: Seq<u8>, pos: int, end: int, cs: Seq<Constant>) -> bool
    decreases end - pos, v.len(),
{
    if v.len() == 0 {
        true
    } else {
        &&& attribute_at(v[0], s, pos, end, cs)
        &&& match spec_attribute(s, pos, end, cs) {
            Ok(p) => pos < p <= end && attributes_at(v.drop_first(), s, p, end, cs),
            Err(_) => false,
        }
    }
}

/// `v` are the attributes of a list at `pos` (a `u16` count first).
pub open spec fn attribute_list_at(v: Seq<Attribute>, s: Seq<u8>, pos: int, end: int, cs: Seq<Constant>) -> bool {
    v.len() == be16(s, pos) && attributes_at(v, s, pos + 2, end, cs)
}

proof fn lemma_attributes_step(v: Seq<Attribute>, x: Attribute, s: Seq<u8>, pos0: int, pos: int, p: int, end: int, cs: Seq<Constant>)
    requires
        forall|w: Seq<Attribute>| attributes_at(w, s, pos, end, cs) ==> #[trigger] attributes_at(v + w, s, pos0, end, cs),
        attribute_at(x, s, pos, end, cs),
        spec_attribute(s, pos, end, cs) == Ok::<int, ErrorKind>(p),
        pos < p <= end,
    ensures
        forall|w: Seq<Attribute>| attributes_at(w, s, p, end, cs) ==> #[trigger] attributes_at(v.push(x) + w, s, pos0, end, cs),
{
    assert forall|w: Seq<Attribute>| attributes_at(w, s, p, end, cs) implies #[trigger] attributes_at(v.push(x) + w, s, pos0, end, cs) by {
        let y = seq![x] + w;
        assert(y.drop_first() =~= w);
        assert(attributes_at(y, s, pos, end, cs));
        assert(v + y =~= v.push(x) + w);
    }
}

/// Decodes the attribute at `pos`, resolving its name in `pool`.
pub fn read_attribute(s: &[u8], pos: usize, end: usize, pool: &ConstantPool) -> (r: Result<(Attribute, usize), ClassLoadingError>)
    requires
        pos <= end <= s@.len(),
        pool.wf(),
    ensures
        match r {
            Ok((a, p)) => spec_attribute(s@, pos as int, end as int, pool.constants@) == Ok::<int, ErrorKind>(p as int)
                && attribute_at(a, s@, pos as int, end as int, pool.constants@) && pos < p <= end,
            Err(e) => spec_attribute(s@, pos as int, end as int, pool.constants@) == Err::<int, ErrorKind>(e.kind),
        },
    decreases end - pos, 2int,
{
    let (ni, p) = read_u16(s, pos, end)?;
    let (len, p) = read_u32(s, p, end)?;
    let kind = match pool.index(ni)? {
        Constant::Utf8(u) => kind_of(&u.string),
        _ => {
            return Err(ClassLoadingError::new(ErrorKind::UnknownAttributeStructure(ni)));
        },
    };
    let len = len as usize;
    if len > end - p {
        return Err(eof());
    }
    let bend = p + len;
    let (a, q) = read_body(kind, ni, s, p, bend, pool)?;
    if q != bend {
        return Err(ClassLoadingError::new(ErrorKind::TrailingAttributeBytes(ni, (bend - q) as u32)));
    }
    Ok((a, bend))
}

/// Decodes the body of an attribute of kind `kind` and name index `ni`, from
/// `pos` to at most `end`.
fn read_body(kind: AttributeKind, ni: u16, s: &[u8], pos: usize, end: usize, pool: &ConstantPool) -> (r: Result<(Attribute, usize), ClassLoadingError>)
    requires
        pos <= end <= s@.len(),
        pool.wf(),
    ensures
        match r {
            Ok((a, p)) => spec_body(kind, s@, pos as int, end as int, pool.constants@) == Ok::<int, ErrorKind>(p as int)
                && body_at(a, kind, ni as int, s@, pos as int, end as int, pool.constants@) && pos <= p <= end,
            Err(e) => spec_body(kind, s@, pos as int, end as int, pool.constants@) == Err::<int, ErrorKind>(e.kind),
        },
    decreases end - pos, 1int,
{
    match kind {
        AttributeKind::ConstantValue => {
            let (const_value_index, p) = read_u16(s, pos, end)?;
            Ok((Attribute::ConstantValue(ConstantValueAttribute { const_value_index }), p))
        },
        AttributeKind::Signature => {
            let (signature_index, p) = read_u16(s, pos, end)?;
            Ok((Attribute::Signature(SignatureAttribute { signature_index }), p))
        },
        AttributeKind::SourceFile => {
            let (sourcefile_index, p) = read_u16(s, pos, end)?;
            Ok((Attribute::SourceFile(SourceFileAttribute { sourcefile_index }), p))
        },
        AttributeKind::EnclosingMethod => {
            let (class_index, p) = read_u16(s, pos, end)?;
            let (method_index, p) = read_u16(s, p, end)?;
            Ok((Attribute::EnclosingMethod(EnclosingMethodAttribute { class_index, method_index }), p))
        },
        AttributeKind::Synthetic => Ok((Attribute::Synthetic, pos)),
        AttributeKind::Deprecated => Ok((Attribute::Deprecated, pos)),
        AttributeKind::Exceptions => {
            let (v, p) = read_exception_indices(s, pos, end)?;
            Ok((Attribute::Exceptions(v), p))
        },
        AttributeKind::LineNumberTable => {
            let (v, p) = read_line_numbers(s, pos, end)?;
            Ok((Attribute::LineNumberTable(v), p))
        },
        AttributeKind::LocalVariableTable => {
            let (v, p) = read_local_variables(s, pos, end)?;
            Ok((Attribute::LocalVariableTable(v), p))
        },
        AttributeKind::LocalVariableTypeTable => {
            let (v, p) = read_local_variable_types(s, pos, end)?;
            Ok((Attribute::LocalVariableTypeTable(v), p))
        },
        AttributeKind::InnerClasses => {
            let (v, p) = read_inner_classes(s, pos, end)?;
            Ok((Attribute::InnerClasses(v), p))
        },
        AttributeKind::StackMapTable => {
            let (v, p) = read_frames(s, pos, end)?;
            Ok((Attribute::StackMapTable(v), p))
        },
        AttributeKind::RuntimeVisibleAnnotations => {
            let (v, p) = read_annotations(s, pos, end)?;
            Ok((Attribute::RuntimeVisibleAnnotations(v), p))
        },
        AttributeKind::RuntimeInvisibleAnnotations => {
            let (v, p) = read_annotations(s, pos, end)?;
            Ok((Attribute::RuntimeInvisibleAnnotations(v), p))
        },
        AttributeKind::RuntimeVisibleParameterAnnotations => {
            let (v, p) = read_parameters(s, pos, end)?;
            Ok((Attribute::RuntimeVisibleParameterAnnotations(v), p))
        },
        AttributeKind::RuntimeInvisibleParameterAnnotations => {
            let (v, p) = read_parameters(s, pos, end)?;
            Ok((Attribute::RuntimeInvisibleParameterAnnotations(v), p))
        },
        AttributeKind::AnnotationDefault => {
            let (default_value, p) = read_element_value(s, pos, end)?;
            Ok((Attribute::AnnotationDefault(AnnotationDefaultAttribute { default_value }), p))
        },
        AttributeKind::BootstrapMethods => {
            let (v, p) = read_bootstraps(s, pos, end)?;
            Ok((Attribute::BootstrapMethods(v), p))
        },
        AttributeKind::Code => {
            let (c, p) = read_code(s, pos, end, pool)?;
            Ok((Attribute::Code(c), p))
        },
        AttributeKind::SourceDebugExtension => {
            let (debug_info, p) = read_bytes(s, pos, end - pos, end)?;
            Ok((Attribute::SourceDebugExtension(SourceDebugExtensionAttribute { debug_info }), p))
        },
        AttributeKind::Other => {
            let (info, p) = read_bytes(s, pos, end - pos, end)?;
            Ok((Attribute::Misc(MiscAttribute { name_index: ni, info }), p))
        },
    }
}

/// Decodes a `Code` body: stack and locals limits, the bytecode, the
/// exception table, then the nested attributes.
fn read_code(s: &[u8], pos: usize, end: usize, pool: &ConstantPool) -> (r: Result<(CodeAttribute, usize), ClassLoadingError>)
    requires
        pos <= end <= s@.len(),
        pool.wf(),
    ensures
        match r {
            Ok((c, p)) => spec_body(AttributeKind::Code, s@, pos as int, end as int, pool.constants@) == Ok::<int, ErrorKind>(p as int)
                && code_at(c, s@, pos as int, end as int, pool.constants@) && pos <= p <= end,
            Err(e) => spec_body(AttributeKind::Code, s@, pos as int, end as int, pool.constants@) == Err::<int, ErrorKind>(e.kind),
        },
    decreases end - pos, 0int,
{
    let (max_stack, p) = read_u16(s, pos, end)?;
    let (max_locals, p) = read_u16(s, p, end)?;
    let (code_length, p) = read_u32(s, p, end)?;
    let (code, q) = read_bytes(s, p, code_length as usize, end)?;
    let (exception_tables, q2) = read_exception_table(s, q, end)?;
    let (attributes, q3) = read_attribute_list(s, q2, end, pool)?;
    Ok((CodeAttribute { max_stack, max_locals, code, exception_tables, attributes }, q3))
}

/// Decodes a `u16` count, then that many attributes, resolving names in `pool`.
pub fn read_attribute_list(s: &[u8], pos: usize, end: usize, pool: &ConstantPool) -> (r: Result<(Vec<Attribute>, usize), ClassLoadingError>)
    requires
        pos <= end <= s@.len(),
        pool.wf(),
    ensures
        match r {
            Ok((v, p)) => spec_attribute_list(s@, pos as int, end as int, pool.constants@) == Ok::<int, ErrorKind>(p as int)
                && attribute_list_at(v@, s@, pos as int, end as int, pool.constants@) && pos < p <= end,
            Err(e) => spec_attribute_list(s@, pos as int, end as int, pool.constants@) == Err::<int, ErrorKind>(e.kind),
        },
    decreases end - pos, 3int,
{
    let ghost cs = pool.constants@;
    let (n, p0) = read_u16(s, pos, end)?;
    let n = n as usize;
    let mut v: Vec<Attribute> = Vec::new();
    let mut q = p0;
    let mut i: usize = 0;
    proof {
        assert forall|w: Seq<Attribute>| attributes_at(w, s@, p0 as int, end as int, cs)
            implies #[trigger] attributes_at(v@ + w, s@, p0 as int, end as int, cs) by {
            assert(v@ + w =~= w);
        }
    }
    while i < n
        invariant
            pos < p0 <= q <= end <= s@.len(),
            p0 == pos + 2,
            pool.wf(),
            cs == pool.constants@,
            i <= n,
            v@.len() == i,
            spec_attribute_list(s@, pos as int, end as int, cs) == spec_attributes(s@, p0 as int, end as int, cs, n as int),
            spec_attributes(s@, p0 as int, end as int, cs, n as int) == spec_attributes(s@, q as int, end as int, cs, (n - i) as int),
            forall|w: Seq<Attribute>| attributes_at(w, s@, q as int, end as int, cs) ==> #[trigger] attributes_at(v@ + w, s@, p0 as int, end as int, cs),
        decreases n - i,
    {
        let (x, q2) = match read_attribute(s, q, end, pool) {
            Ok(x) => x,
            Err(e) => {
                assert(spec_attributes(s@, q as int, end as int, cs, (n - i) as int) == Err::<int, ErrorKind>(e.kind));
                return Err(e);
            },
        };
        proof { lemma_attributes_step(v@, x, s@, p0 as int, q as int, q2 as int, end as int, cs); }
        assert(spec_attributes(s@, q as int, end as int, cs, (n - i) as int) == spec_attributes(s@, q2 as int, end as int, cs, (n - (i + 1)) as int));
        v.push(x);
        q = q2;
        i = i + 1;
    }
    proof {
        assert(spec_attributes(s@, q as int, end as int, cs, 0) == Ok::<int, ErrorKind>(q as int));
        assert(attributes_at(Seq::<Attribute>::empty(), s@, q as int, end as int, cs));
        assert(attributes_at(v@ + Seq::<Attribute>::empty(), s@, p0 as int, end as int, cs));
        assert(v@ + Seq::<Attribute>::empty() =~= v@);
    }
    Ok((v, q))
}

} // verus!
