use vstd::prelude::*;
use crate::annotations::{AnnotationAttribute, ElementValue, ElementValuePair};
use crate::attributes::{
    Attribute, BootstrapMethodAttribute, ExceptionIndexAttribute, ExceptionTableAttribute, InnerClassAttribute,
    LocalVariableTableAttribute, LocalVariableTypeTableAttribute,
};
use crate::annotations::ParameterAnnotationAttribute;
use crate::class::{class_at, class_error, Class, FieldInfo, MethodInfo};
use crate::constant_pool::{pool_entry, Constant, ConstantPool};
use crate::stack_map::{StackMapTableAttribute, VerificationType};
use crate::error::{ClassLoadingError, ErrorKind};

verus! {

/// The pool index `i` resolves to a constant of the pool `cs`.
pub open spec fn resolves(cs: Seq<Constant>, i: u16) -> bool {
    pool_entry(cs, i as int) is Some
}

/// The name and descriptor indices of the fields, in order.
pub open spec fn field_indices(v: Seq<FieldInfo>) -> Seq<u16>
    decreases v.len(),
{
    if v.len() == 0 {
        Seq::empty()
    } else {
        field_indices(v.drop_last()) + seq![v.last().name_index, v.last().descriptor_index]
    }
}

/// The name and descriptor indices of the methods, in order.
pub open spec fn method_indices(v: Seq<MethodInfo>) -> Seq<u16>
    decreases v.len(),
{
    if v.len() == 0 {
        Seq::empty()
    } else {
        method_indices(v.drop_last()) + seq![v.last().name_index, v.last().descriptor_index]
    }
}

/// The pool indices that strict decoding checks, in order: this class, the
/// super class unless it is 0, the interfaces, then the name and descriptor
/// of each field and of each method.
pub open spec fn checked_indices(c: Class) -> Seq<u16> {
    seq![c.this_class]
        + (if c.super_class == 0 { Seq::empty() } else { seq![c.super_class] })
        + c.interfaces@.map_values(|x: crate::class::Interface| x.interface_index)
        + field_indices(c.fields@)
        + method_indices(c.methods@)
}

/// Every index in `v` resolves in `cs`.
pub open spec fn all_resolve(cs: Seq<Constant>, v: Seq<u16>) -> bool {
    forall|j: int| 0 <= j < v.len() ==> resolves(cs, #[trigger] v[j])
}

impl Class {
    /// The indices that strict decoding checks (see `checked_indices`).
    pub fn stored_indices(&self) -> (r: Vec<u16>)
        ensures
            r@ == checked_indices(*self),
    {
        let mut r: Vec<u16> = Vec::new();
        r.push(self.this_class);
        if self.super_class != 0 {
            r.push(self.super_class);
        }
        let ghost head = r@;
        let mut i: usize = 0;
        while i < self.interfaces.len()
            invariant
                i <= self.interfaces@.len(),
                r@ == head + self.interfaces@.take(i as int).map_values(|x: crate::class::Interface| x.interface_index),
            decreases self.interfaces@.len() - i,
        {
            r.push(self.interfaces[i].interface_index);
            i = i + 1;
            assert(r@ =~= head + self.interfaces@.take(i as int).map_values(|x: crate::class::Interface| x.interface_index));
        }
        assert(self.interfaces@.take(i as int) =~= self.interfaces@);
        let ghost head = r@;
        let mut i: usize = 0;
        assert(field_indices(self.fields@.take(0)) =~= Seq::<u16>::empty());
        assert(r@ =~= head + field_indices(self.fields@.take(0)));
        while i < self.fields.len()
            invariant
                i <= self.fields@.len(),
                r@ == head + field_indices(self.fields@.take(i as int)),
            decreases self.fields@.len() - i,
        {
            let f = &self.fields[i];
            r.push(f.name_index);
            r.push(f.descriptor_index);
            assert(self.fields@.take(i + 1).drop_last() =~= self.fields@.take(i as int));
            i = i + 1;
            assert(r@ =~= head + field_indices(self.fields@.take(i as int)));
        }
        assert(self.fields@.take(i as int) =~= self.fields@);
        let ghost head = r@;
        let mut i: usize = 0;
        assert(method_indices(self.methods@.take(0)) =~= Seq::<u16>::empty());
        assert(r@ =~= head + method_indices(self.methods@.take(0)));
        while i < self.methods.len()
            invariant
                i <= self.methods@.len(),
                r@ == head + method_indices(self.methods@.take(i as int)),
            decreases self.methods@.len() - i,
        {
            let m = &self.methods[i];
            r.push(m.name_index);
            r.push(m.descriptor_index);
            assert(self.methods@.take(i + 1).drop_last() =~= self.methods@.take(i as int));
            i = i + 1;
            assert(r@ =~= head + method_indices(self.methods@.take(i as int)));
        }
        assert(self.methods@.take(i as int) =~= self.methods@);
        r
    }

    /// The strict check of a decoded class: every pool index that it stores
    /// resolves in its own pool (see `class_refs_ok`); otherwise an index
    /// that does not is reported.
    pub fn check_indices(&self) -> (r: Result<(), ClassLoadingError>)
        requires
            self.constant_pool.wf(),
        ensures
            r is Ok <==> class_refs_ok(*self),
            r matches Err(e) ==> bad_index(self.constant_pool.constants@, e.kind),
    {
        let pool = &self.constant_pool;
        let v = self.stored_indices();
        let mut j: usize = 0;
        while j < v.len()
            invariant
                pool.wf(),
                pool == &self.constant_pool,
                v@ == checked_indices(*self),
                j <= v@.len(),
                forall|k: int| 0 <= k < j ==> resolves(pool.constants@, #[trigger] v@[k]),
            decreases v@.len() - j,
        {
            need(v[j], pool)?;
            j = j + 1;
        }
        let cs = &pool.constants;
        let mut j: usize = 0;
        while j < cs.len()
            invariant
                pool.wf(),
                pool == &self.constant_pool,
                cs == &pool.constants,
                j <= cs@.len(),
                forall|k: int| 0 <= k < j ==> constant_refs_ok(#[trigger] cs@[k], pool.constants@),
            decreases cs@.len() - j,
        {
            check_constant(&cs[j], pool)?;
            j = j + 1;
        }
        check_attributes(&self.attributes, pool)?;
        let mut j: usize = 0;
        while j < self.fields.len()
            invariant
                pool.wf(),
                pool == &self.constant_pool,
                j <= self.fields@.len(),
                forall|k: int| 0 <= k < j ==> attributes_refs_ok((#[trigger] self.fields@[k]).attributes@, pool.constants@),
            decreases self.fields@.len() - j,
        {
            check_attributes(&self.fields[j].attributes, pool)?;
            j = j + 1;
        }
        let mut j: usize = 0;
        while j < self.methods.len()
            invariant
                pool.wf(),
                pool == &self.constant_pool,
                j <= self.methods@.len(),
                forall|k: int| 0 <= k < j ==> attributes_refs_ok((#[trigger] self.methods@[k]).attributes@, pool.constants@),
            decreases self.methods@.len() - j,
        {
            check_attributes(&self.methods[j].attributes, pool)?;
            j = j + 1;
        }
        Ok(())
    }

    /// Decodes a class, then applies the strict index check.
    pub fn read_strict(s: &[u8]) -> (r: Result<Class, ClassLoadingError>)
        ensures
            match r {
                Ok(c) => class_at(c, s@) && class_refs_ok(c),
                Err(e) => class_error(s@, e.kind) || exists|c: Class| #[trigger] class_at(c, s@)
                    && !class_refs_ok(c) && bad_index(c.constant_pool.constants@, e.kind),
            },
    {
        let c = Class::read(s)?;
        match c.check_indices() {
            Ok(()) => Ok(c),
            Err(e) => Err(e),
        }
    }
}

/// `e` is the error of an index that does not resolve in `cs`.
pub open spec fn bad_index(cs: Seq<Constant>, e: ErrorKind) -> bool {
    exists|i: u16| e == ErrorKind::InvalidPoolIndex(i) && !resolves(cs, i)
}

/// `i` is 0 (where the format allows "none") or resolves in `cs`.
pub open spec fn resolves_or_zero(cs: Seq<Constant>, i: u16) -> bool {
    i == 0 || resolves(cs, i)
}

/// The pool indices inside a constant resolve. A bootstrap method index
/// points into the `BootstrapMethods` attribute, not into the pool.
pub open spec fn constant_refs_ok(c: Constant, cs: Seq<Constant>) -> bool {
    match c {
        Constant::Class(x) => resolves(cs, x.name_index),
        Constant::String(x) => resolves(cs, x.string_index),
        Constant::Field(x) | Constant::Method(x) | Constant::InterfaceMethod(x) =>
            resolves(cs, x.class_index) && resolves(cs, x.name_and_type_index),
        Constant::NameAndType(x) => resolves(cs, x.name_index) && resolves(cs, x.descriptor_index),
        Constant::MethodHandle(x) => resolves(cs, x.reference_index),
        Constant::MethodType(x) => resolves(cs, x.descriptor_index),
        Constant::InvokeDynamic(x) => resolves(cs, x.name_and_type_index),
        Constant::Module(x) | Constant::Package(x) => resolves(cs, x.name_index),
        _ => true,
    }
}

pub open spec fn vti_refs_ok(v: VerificationType, cs: Seq<Constant>) -> bool {
    match v {
        VerificationType::Object(o) => resolves(cs, o.constant_index),
        _ => true,
    }
}

pub open spec fn frame_refs_ok(f: StackMapTableAttribute, cs: Seq<Constant>) -> bool {
    match f {
        StackMapTableAttribute::SameLocalsOneStackItem(x) => vti_refs_ok(x.stack, cs),
        StackMapTableAttribute::SameLocalsOneStackItemExtended(x) => vti_refs_ok(x.stack, cs),
        StackMapTableAttribute::Append(x) => forall|k: int| 0 <= k < x.locals@.len() ==> vti_refs_ok(#[trigger] x.locals@[k], cs),
        StackMapTableAttribute::Full(x) => (forall|k: int| 0 <= k < x.locals@.len() ==> vti_refs_ok(#[trigger] x.locals@[k], cs))
            && (forall|k: int| 0 <= k < x.stack@.len() ==> vti_refs_ok(#[trigger] x.stack@[k], cs)),
        _ => true,
    }
}

pub open spec fn ev_refs_ok(e: ElementValue, cs: Seq<Constant>) -> bool
    decreases e,
{
    match e {
        ElementValue::Constant(x) => resolves(cs, x.const_value_index),
        ElementValue::Enum(x) => resolves(cs, x.type_name_index) && resolves(cs, x.const_name_index),
        ElementValue::Class(x) => resolves(cs, x.class_info_index),
        ElementValue::Annotation(x) => annotation_refs_ok(x.annotation, cs),
        ElementValue::Array(x) => forall|k: int| 0 <= k < x.array_values@.len() ==> ev_refs_ok(#[trigger] x.array_values@[k], cs),
    }
}

pub open spec fn annotation_refs_ok(a: AnnotationAttribute, cs: Seq<Constant>) -> bool
    decreases a,
{
    &&& resolves(cs, a.type_index)
    &&& forall|k: int| 0 <= k < a.element_value_pairs@.len() ==> {
        &&& resolves(cs, #[trigger] a.element_value_pairs@[k].element_name_index)
        &&& ev_refs_ok(a.element_value_pairs@[k].value, cs)
    }
}

pub open spec fn annotations_refs_ok(v: Seq<AnnotationAttribute>, cs: Seq<Constant>) -> bool {
    forall|k: int| 0 <= k < v.len() ==> annotation_refs_ok(#[trigger] v[k], cs)
}

/// The pool indices inside an attribute resolve; an exception handler's
/// catch type, an inner class's outer class and name, and an enclosing
/// method may be 0.
pub open spec fn attribute_refs_ok(a: Attribute, cs: Seq<Constant>) -> bool
    decreases a,
{
    match a {
        Attribute::ConstantValue(x) => resolves(cs, x.const_value_index),
        Attribute::Code(c) => (forall|k: int| 0 <= k < c.exception_tables@.len()
            ==> resolves_or_zero(cs, (#[trigger] c.exception_tables@[k]).catch_type))
            && (forall|k: int| 0 <= k < c.attributes@.len() ==> attribute_refs_ok(#[trigger] c.attributes@[k], cs)),
        Attribute::StackMapTable(v) => forall|k: int| 0 <= k < v@.len() ==> frame_refs_ok(#[trigger] v@[k], cs),
        Attribute::Exceptions(v) => forall|k: int| 0 <= k < v@.len() ==> resolves(cs, (#[trigger] v@[k]).index),
        Attribute::InnerClasses(v) => forall|k: int| 0 <= k < v@.len() ==> {
            &&& resolves(cs, (#[trigger] v@[k]).inner_class_info_index)
            &&& resolves_or_zero(cs, v@[k].outer_class_info_index)
            &&& resolves_or_zero(cs, v@[k].inner_name_index)
        },
        Attribute::EnclosingMethod(x) => resolves(cs, x.class_index) && resolves_or_zero(cs, x.method_index),
        Attribute::Signature(x) => resolves(cs, x.signature_index),
        Attribute::SourceFile(x) => resolves(cs, x.sourcefile_index),
        Attribute::LocalVariableTable(v) => forall|k: int| 0 <= k < v@.len()
            ==> resolves(cs, (#[trigger] v@[k]).name_index) && resolves(cs, v@[k].descriptor_index),
        Attribute::LocalVariableTypeTable(v) => forall|k: int| 0 <= k < v@.len()
            ==> resolves(cs, (#[trigger] v@[k]).name_index) && resolves(cs, v@[k].signature_index),
        Attribute::RuntimeVisibleAnnotations(v) => annotations_refs_ok(v@, cs),
        Attribute::RuntimeInvisibleAnnotations(v) => annotations_refs_ok(v@, cs),
        Attribute::RuntimeVisibleParameterAnnotations(v) => forall|k: int| 0 <= k < v@.len()
            ==> annotations_refs_ok((#[trigger] v@[k]).annotations@, cs),
        Attribute::RuntimeInvisibleParameterAnnotations(v) => forall|k: int| 0 <= k < v@.len()
            ==> annotations_refs_ok((#[trigger] v@[k]).annotations@, cs),
        Attribute::AnnotationDefault(x) => ev_refs_ok(x.default_value, cs),
        Attribute::BootstrapMethods(v) => forall|k: int| 0 <= k < v@.len() ==> {
            &&& resolves(cs, (#[trigger] v@[k]).bootstrap_method_ref)
            &&& forall|m: int| 0 <= m < v@[k].bootstrap_arguments@.len() ==> resolves(cs, #[trigger] v@[k].bootstrap_arguments@[m])
        },
        _ => true,
    }
}

pub open spec fn attributes_refs_ok(v: Seq<Attribute>, cs: Seq<Constant>) -> bool {
    forall|k: int| 0 <= k < v.len() ==> attribute_refs_ok(#[trigger] v[k], cs)
}

/// Every pool index that a decoded class stores resolves in its pool: the
/// ones `checked_indices` lists, those inside the constants, and those inside
/// the attributes of the class, its fields and its methods.
pub open spec fn class_refs_ok(c: Class) -> bool {
    let cs = c.constant_pool.constants@;
    &&& all_resolve(cs, checked_indices(c))
    &&& forall|k: int| 0 <= k < cs.len() ==> constant_refs_ok(#[trigger] cs[k], cs)
    &&& attributes_refs_ok(c.attributes@, cs)
    &&& forall|k: int| 0 <= k < c.fields@.len() ==> attributes_refs_ok((#[trigger] c.fields@[k]).attributes@, cs)
    &&& forall|k: int| 0 <= k < c.methods@.len() ==> attributes_refs_ok((#[trigger] c.methods@[k]).attributes@, cs)
}

fn need(i: u16, pool: &ConstantPool) -> (r: Result<(), ClassLoadingError>)
        requires
            pool.wf(),
        ensures
            r is Ok <==> resolves(pool.constants@, i),
            r matches Err(e) ==> bad_index(pool.constants@, e.kind),
{
    match pool.index(i) {
        Ok(_) => Ok(()),
        Err(e) => {
            assert(e.kind == ErrorKind::InvalidPoolIndex(i) && !resolves(pool.constants@, i));
            Err(e)
        },
    }
}

fn need_or_zero(i: u16, pool: &ConstantPool) -> (r: Result<(), ClassLoadingError>)
        requires
            pool.wf(),
        ensures
            r is Ok <==> resolves_or_zero(pool.constants@, i),
            r matches Err(e) ==> bad_index(pool.constants@, e.kind),
{
    if i == 0 {
        Ok(())
    } else {
        need(i, pool)
    }
}

fn check_constant(c: &Constant, pool: &ConstantPool) -> (r: Result<(), ClassLoadingError>)
        requires
            pool.wf(),
        ensures
            r is Ok <==> constant_refs_ok(*c, pool.constants@),
            r matches Err(e) ==> bad_index(pool.constants@, e.kind),
{
    match c {
        Constant::Class(x) => need(x.name_index, pool),
        Constant::String(x) => need(x.string_index, pool),
        Constant::Field(x) | Constant::Method(x) | Constant::InterfaceMethod(x) => {
            need(x.class_index, pool)?;
            need(x.name_and_type_index, pool)
        },
        Constant::NameAndType(x) => {
            need(x.name_index, pool)?;
            need(x.descriptor_index, pool)
        },
        Constant::MethodHandle(x) => need(x.reference_index, pool),
        Constant::MethodType(x) => need(x.descriptor_index, pool),
        Constant::InvokeDynamic(x) => need(x.name_and_type_index, pool),
        Constant::Module(x) | Constant::Package(x) => need(x.name_index, pool),
        _ => Ok(()),
    }
}

fn check_vti(v: &VerificationType, pool: &ConstantPool) -> (r: Result<(), ClassLoadingError>)
        requires
            pool.wf(),
        ensures
            r is Ok <==> vti_refs_ok(*v, pool.constants@),
            r matches Err(e) ==> bad_index(pool.constants@, e.kind),
{
    match v {
        VerificationType::Object(o) => need(o.constant_index, pool),
        _ => Ok(()),
    }
}

fn check_vtis(v: &Vec<VerificationType>, pool: &ConstantPool) -> (r: Result<(), ClassLoadingError>)
        requires
            pool.wf(),
        ensures
            r is Ok <==> forall|k: int| 0 <= k < v@.len() ==> vti_refs_ok(#[trigger] v@[k], pool.constants@),
            r matches Err(e) ==> bad_index(pool.constants@, e.kind),
{
        let mut j: usize = 0;
        while j < v.len()
            invariant
                pool.wf(),
                j <= v@.len(),
                forall|k: int| 0 <= k < j ==> vti_refs_ok(#[trigger] v@[k], pool.constants@),
            decreases v@.len() - j,
        {
            check_vti(&v[j], pool)?;
            j = j + 1;
        }
    Ok(())
}

fn check_frame(f: &StackMapTableAttribute, pool: &ConstantPool) -> (r: Result<(), ClassLoadingError>)
        requires
            pool.wf(),
        ensures
            r is Ok <==> frame_refs_ok(*f, pool.constants@),
            r matches Err(e) ==> bad_index(pool.constants@, e.kind),
{
    match f {
        StackMapTableAttribute::SameLocalsOneStackItem(x) => check_vti(&x.stack, pool),
        StackMapTableAttribute::SameLocalsOneStackItemExtended(x) => check_vti(&x.stack, pool),
        StackMapTableAttribute::Append(x) => check_vtis(&x.locals, pool),
        StackMapTableAttribute::Full(x) => {
            check_vtis(&x.locals, pool)?;
            check_vtis(&x.stack, pool)
        },
        _ => Ok(()),
    }
}

fn check_element_value(e: &ElementValue, pool: &ConstantPool) -> (r: Result<(), ClassLoadingError>)
        requires
            pool.wf(),
        ensures
            r is Ok <==> ev_refs_ok(*e, pool.constants@),
            r matches Err(e) ==> bad_index(pool.constants@, e.kind),
    decreases e,
{
    match e {
        ElementValue::Constant(x) => need(x.const_value_index, pool),
        ElementValue::Enum(x) => {
            need(x.type_name_index, pool)?;
            need(x.const_name_index, pool)
        },
        ElementValue::Class(x) => need(x.class_info_index, pool),
        ElementValue::Annotation(x) => check_annotation(&x.annotation, pool),
        ElementValue::Array(x) => check_element_values(&x.array_values, pool),
    }
}

fn check_annotation(a: &AnnotationAttribute, pool: &ConstantPool) -> (r: Result<(), ClassLoadingError>)
        requires
            pool.wf(),
        ensures
            r is Ok <==> annotation_refs_ok(*a, pool.constants@),
            r matches Err(e) ==> bad_index(pool.constants@, e.kind),
    decreases a,
{
    need(a.type_index, pool)?;
    check_pairs(&a.element_value_pairs, pool)
}

fn check_element_values(v: &Vec<ElementValue>, pool: &ConstantPool) -> (r: Result<(), ClassLoadingError>)
    requires
        pool.wf(),
    ensures
        r is Ok <==> forall|k: int| 0 <= k < v@.len() ==> ev_refs_ok(#[trigger] v@[k], pool.constants@),
        r matches Err(e) ==> bad_index(pool.constants@, e.kind),
    decreases v,
{
    let mut j: usize = 0;
    while j < v.len()
        invariant
            pool.wf(),
            j <= v@.len(),
            forall|k: int| 0 <= k < j ==> ev_refs_ok(#[trigger] v@[k], pool.constants@),
        decreases v@.len() - j,
    {
        check_element_value(&v[j], pool)?;
        j = j + 1;
    }
    Ok(())
}

fn check_pairs(v: &Vec<ElementValuePair>, pool: &ConstantPool) -> (r: Result<(), ClassLoadingError>)
    requires
        pool.wf(),
    ensures
        r is Ok <==> forall|k: int| 0 <= k < v@.len() ==> {
            &&& resolves(pool.constants@, (#[trigger] v@[k]).element_name_index)
            &&& ev_refs_ok(v@[k].value, pool.constants@)
        },
        r matches Err(e) ==> bad_index(pool.constants@, e.kind),
    decreases v,
{
    let mut j: usize = 0;
    while j < v.len()
        invariant
            pool.wf(),
            j <= v@.len(),
            forall|k: int| 0 <= k < j ==> resolves(pool.constants@, (#[trigger] v@[k]).element_name_index)
                && ev_refs_ok(v@[k].value, pool.constants@),
        decreases v@.len() - j,
    {
        need(v[j].element_name_index, pool)?;
        check_element_value(&v[j].value, pool)?;
        j = j + 1;
    }
    Ok(())
}

fn check_annotations(v: &Vec<AnnotationAttribute>, pool: &ConstantPool) -> (r: Result<(), ClassLoadingError>)
        requires
            pool.wf(),
        ensures
            r is Ok <==> annotations_refs_ok(v@, pool.constants@),
            r matches Err(e) ==> bad_index(pool.constants@, e.kind),
{
        let mut j: usize = 0;
        while j < v.len()
            invariant
                pool.wf(),
                j <= v@.len(),
                forall|k: int| 0 <= k < j ==> annotation_refs_ok(#[trigger] v@[k], pool.constants@),
            decreases v@.len() - j,
        {
            check_annotation(&v[j], pool)?;
            j = j + 1;
        }
    Ok(())
}

fn check_catch_types(v: &Vec<ExceptionTableAttribute>, pool: &ConstantPool) -> (r: Result<(), ClassLoadingError>)
    requires
        pool.wf(),
    ensures
        r is Ok <==> forall|k: int| 0 <= k < v@.len() ==> resolves_or_zero(pool.constants@, (#[trigger] v@[k]).catch_type),
        r matches Err(e) ==> bad_index(pool.constants@, e.kind),
{
    let mut j: usize = 0;
    while j < v.len()
        invariant
            pool.wf(),
            j <= v@.len(),
            forall|k: int| 0 <= k < j ==> resolves_or_zero(pool.constants@, (#[trigger] v@[k]).catch_type),
        decreases v@.len() - j,
    {
        need_or_zero(v[j].catch_type, pool)?;
        j = j + 1;
    }
    Ok(())
}

fn check_frames(v: &Vec<StackMapTableAttribute>, pool: &ConstantPool) -> (r: Result<(), ClassLoadingError>)
    requires
        pool.wf(),
    ensures
        r is Ok <==> forall|k: int| 0 <= k < v@.len() ==> frame_refs_ok((#[trigger] v@[k]), pool.constants@),
        r matches Err(e) ==> bad_index(pool.constants@, e.kind),
{
    let mut j: usize = 0;
    while j < v.len()
        invariant
            pool.wf(),
            j <= v@.len(),
            forall|k: int| 0 <= k < j ==> frame_refs_ok((#[trigger] v@[k]), pool.constants@),
        decreases v@.len() - j,
    {
        check_frame(&v[j], pool)?;
        j = j + 1;
    }
    Ok(())
}

fn check_exception_indices(v: &Vec<ExceptionIndexAttribute>, pool: &ConstantPool) -> (r: Result<(), ClassLoadingError>)
    requires
        pool.wf(),
    ensures
        r is Ok <==> forall|k: int| 0 <= k < v@.len() ==> resolves(pool.constants@, (#[trigger] v@[k]).index),
        r matches Err(e) ==> bad_index(pool.constants@, e.kind),
{
    let mut j: usize = 0;
    while j < v.len()
        invariant
            pool.wf(),
            j <= v@.len(),
            forall|k: int| 0 <= k < j ==> resolves(pool.constants@, (#[trigger] v@[k]).index),
        decreases v@.len() - j,
    {
        need(v[j].index, pool)?;
        j = j + 1;
    }
    Ok(())
}

fn check_inner_classes(v: &Vec<InnerClassAttribute>, pool: &ConstantPool) -> (r: Result<(), ClassLoadingError>)
    requires
        pool.wf(),
    ensures
        r is Ok <==> forall|k: int| 0 <= k < v@.len() ==> resolves(pool.constants@, (#[trigger] v@[k]).inner_class_info_index) && resolves_or_zero(pool.constants@, v@[k].outer_class_info_index) && resolves_or_zero(pool.constants@, v@[k].inner_name_index),
        r matches Err(e) ==> bad_index(pool.constants@, e.kind),
{
    let mut j: usize = 0;
    while j < v.len()
        invariant
            pool.wf(),
            j <= v@.len(),
            forall|k: int| 0 <= k < j ==> resolves(pool.constants@, (#[trigger] v@[k]).inner_class_info_index) && resolves_or_zero(pool.constants@, v@[k].outer_class_info_index) && resolves_or_zero(pool.constants@, v@[k].inner_name_index),
        decreases v@.len() - j,
    {
        need(v[j].inner_class_info_index, pool)?;
        need_or_zero(v[j].outer_class_info_index, pool)?;
        need_or_zero(v[j].inner_name_index, pool)?;
        j = j + 1;
    }
    Ok(())
}

fn check_local_variables(v: &Vec<LocalVariableTableAttribute>, pool: &ConstantPool) -> (r: Result<(), ClassLoadingError>)
    requires
        pool.wf(),
    ensures
        r is Ok <==> forall|k: int| 0 <= k < v@.len() ==> resolves(pool.constants@, (#[trigger] v@[k]).name_index) && resolves(pool.constants@, v@[k].descriptor_index),
        r matches Err(e) ==> bad_index(pool.constants@, e.kind),
{
    let mut j: usize = 0;
    while j < v.len()
        invariant
            pool.wf(),
            j <= v@.len(),
            forall|k: int| 0 <= k < j ==> resolves(pool.constants@, (#[trigger] v@[k]).name_index) && resolves(pool.constants@, v@[k].descriptor_index),
        decreases v@.len() - j,
    {
        need(v[j].name_index, pool)?;
        need(v[j].descriptor_index, pool)?;
        j = j + 1;
    }
    Ok(())
}

fn check_local_variable_types(v: &Vec<LocalVariableTypeTableAttribute>, pool: &ConstantPool) -> (r: Result<(), ClassLoadingError>)
    requires
        pool.wf(),
    ensures
        r is Ok <==> forall|k: int| 0 <= k < v@.len() ==> resolves(pool.constants@, (#[trigger] v@[k]).name_index) && resolves(pool.constants@, v@[k].signature_index),
        r matches Err(e) ==> bad_index(pool.constants@, e.kind),
{
    let mut j: usize = 0;
    while j < v.len()
        invariant
            pool.wf(),
            j <= v@.len(),
            forall|k: int| 0 <= k < j ==> resolves(pool.constants@, (#[trigger] v@[k]).name_index) && resolves(pool.constants@, v@[k].signature_index),
        decreases v@.len() - j,
    {
        need(v[j].name_index, pool)?;
        need(v[j].signature_index, pool)?;
        j = j + 1;
    }
    Ok(())
}

fn check_parameters(v: &Vec<ParameterAnnotationAttribute>, pool: &ConstantPool) -> (r: Result<(), ClassLoadingError>)
    requires
        pool.wf(),
    ensures
        r is Ok <==> forall|k: int| 0 <= k < v@.len() ==> annotations_refs_ok((#[trigger] v@[k]).annotations@, pool.constants@),
        r matches Err(e) ==> bad_index(pool.constants@, e.kind),
{
    let mut j: usize = 0;
    while j < v.len()
        invariant
            pool.wf(),
            j <= v@.len(),
            forall|k: int| 0 <= k < j ==> annotations_refs_ok((#[trigger] v@[k]).annotations@, pool.constants@),
        decreases v@.len() - j,
    {
        check_annotations(&v[j].annotations, pool)?;
        j = j + 1;
    }
    Ok(())
}

fn check_u16s(v: &Vec<u16>, pool: &ConstantPool) -> (r: Result<(), ClassLoadingError>)
    requires
        pool.wf(),
    ensures
        r is Ok <==> forall|k: int| 0 <= k < v@.len() ==> resolves(pool.constants@, (#[trigger] v@[k])),
        r matches Err(e) ==> bad_index(pool.constants@, e.kind),
{
    let mut j: usize = 0;
    while j < v.len()
        invariant
            pool.wf(),
            j <= v@.len(),
            forall|k: int| 0 <= k < j ==> resolves(pool.constants@, (#[trigger] v@[k])),
        decreases v@.len() - j,
    {
        need(v[j], pool)?;
        j = j + 1;
    }
    Ok(())
}

fn check_bootstraps(v: &Vec<BootstrapMethodAttribute>, pool: &ConstantPool) -> (r: Result<(), ClassLoadingError>)
    requires
        pool.wf(),
    ensures
        r is Ok <==> forall|k: int| 0 <= k < v@.len() ==> resolves(pool.constants@, (#[trigger] v@[k]).bootstrap_method_ref) && (forall|m: int| 0 <= m < v@[k].bootstrap_arguments@.len() ==> resolves(pool.constants@, #[trigger] v@[k].bootstrap_arguments@[m])),
        r matches Err(e) ==> bad_index(pool.constants@, e.kind),
{
    let mut j: usize = 0;
    while j < v.len()
        invariant
            pool.wf(),
            j <= v@.len(),
            forall|k: int| 0 <= k < j ==> resolves(pool.constants@, (#[trigger] v@[k]).bootstrap_method_ref) && (forall|m: int| 0 <= m < v@[k].bootstrap_arguments@.len() ==> resolves(pool.constants@, #[trigger] v@[k].bootstrap_arguments@[m])),
        decreases v@.len() - j,
    {
        need(v[j].bootstrap_method_ref, pool)?;
        check_u16s(&v[j].bootstrap_arguments, pool)?;
        j = j + 1;
    }
    Ok(())
}

fn check_attribute(a: &Attribute, pool: &ConstantPool) -> (r: Result<(), ClassLoadingError>)
    requires
        pool.wf(),
    ensures
        r is Ok <==> attribute_refs_ok(*a, pool.constants@),
        r matches Err(e) ==> bad_index(pool.constants@, e.kind),
    decreases a,
{
    match a {
        Attribute::ConstantValue(x) => need(x.const_value_index, pool),
        Attribute::Code(c) => {
            check_catch_types(&c.exception_tables, pool)?;
            check_attributes(&c.attributes, pool)
        },
        Attribute::StackMapTable(v) => check_frames(v, pool),
        Attribute::Exceptions(v) => check_exception_indices(v, pool),
        Attribute::InnerClasses(v) => check_inner_classes(v, pool),
        Attribute::EnclosingMethod(x) => {
            need(x.class_index, pool)?;
            need_or_zero(x.method_index, pool)
        },
        Attribute::Signature(x) => need(x.signature_index, pool),
        Attribute::SourceFile(x) => need(x.sourcefile_index, pool),
        Attribute::LocalVariableTable(v) => check_local_variables(v, pool),
        Attribute::LocalVariableTypeTable(v) => check_local_variable_types(v, pool),
        Attribute::RuntimeVisibleAnnotations(v) => check_annotations(v, pool),
        Attribute::RuntimeInvisibleAnnotations(v) => check_annotations(v, pool),
        Attribute::RuntimeVisibleParameterAnnotations(v) => check_parameters(v, pool),
        Attribute::RuntimeInvisibleParameterAnnotations(v) => check_parameters(v, pool),
        Attribute::AnnotationDefault(x) => check_element_value(&x.default_value, pool),
        Attribute::BootstrapMethods(v) => check_bootstraps(v, pool),
        _ => Ok(()),
    }
}

fn check_attributes(v: &Vec<Attribute>, pool: &ConstantPool) -> (r: Result<(), ClassLoadingError>)
        requires
            pool.wf(),
        ensures
            r is Ok <==> attributes_refs_ok(v@, pool.constants@),
            r matches Err(e) ==> bad_index(pool.constants@, e.kind),
    decreases v,
{
        let mut j: usize = 0;
        while j < v.len()
            invariant
                pool.wf(),
                j <= v@.len(),
                forall|k: int| 0 <= k < j ==> attribute_refs_ok(#[trigger] v@[k], pool.constants@),
            decreases v@.len() - j,
        {
            check_attribute(&v[j], pool)?;
            j = j + 1;
        }
    Ok(())
}

} // verus!
