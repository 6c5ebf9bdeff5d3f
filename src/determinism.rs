use vstd::prelude::*;
use crate::annotations::{annotation_at, ev_at, evs_at, pairs_at, spec_ev, AnnotationAttribute, ElementValue, ElementValuePair};
use crate::attributes::{
    annotation_check, annotation_item, attribute_at, attributes_at, body_at, bootstrap_at, bootstrap_check, bootstrap_item,
    code_at, exception_entry_at, exception_index_at, inner_class_at, inner_class_check, inner_class_item, line_number_at,
    local_variable_at, local_variable_type_at, parameter_at, parameter_check, parameter_item, spec_attribute, u16_at,
    Attribute, AttributeKind, BootstrapMethodAttribute, CodeAttribute, InnerClassAttribute,
};
use crate::bytes::{be16, be32};
use crate::constant_pool::{pool_entry, Constant};
use crate::error::ErrorKind;
use crate::class::{
    class_at, class_rest_at, field_at, field_check, field_item, fields_at, method_at, method_check, method_item, methods_at,
    spec_class_head, spec_fields, spec_methods, Class, FieldInfo, MethodInfo,
};
use crate::constant_pool::pool_at;
use crate::error::FlagScope;
use crate::flags::{FIELD_FLAGS_MASK, METHOD_FLAGS_MASK};
use crate::laws::{
    lemma_attribute_agree, lemma_class_summary, lemma_entries_unique, lemma_members_agree, lemma_pools_agree, lemma_rest_agree,
    pools_agree, same_constant,
};
use crate::stack_map::{frame_check, frame_item};
use crate::list::items_at;
use crate::stack_map::{frame_at, vti_at, vti_check, vti_item, StackMapTableAttribute, VerificationType};

verus! {

/// Two lists decoded from the same positions, whose items agree at every
/// position where both decode, agree item by item.
pub proof fn lemma_items_pairwise<T>(
    v1: Seq<T>,
    v2: Seq<T>,
    pos: int,
    item1: spec_fn(int) -> Result<int, ErrorKind>,
    item2: spec_fn(int) -> Result<int, ErrorKind>,
    at1: spec_fn(T, int) -> bool,
    at2: spec_fn(T, int) -> bool,
    eqv: spec_fn(T, T) -> bool,
)
    requires
        items_at(v1, pos, item1, at1),
        items_at(v2, pos, item2, at2),
        v1.len() == v2.len(),
        forall|q: int| #[trigger] item1(q) == item2(q),
        forall|x: T, y: T, q: int| #[trigger] at1(x, q) && #[trigger] at2(y, q) ==> eqv(x, y),
    ensures
        forall|k: int| 0 <= k < v1.len() ==> #[trigger] eqv(v1[k], v2[k]),
    decreases v1.len(),
{
    if v1.len() > 0 {
        assert(item1(pos) == item2(pos));
        let p = item1(pos)->Ok_0;
        lemma_items_pairwise(v1.drop_first(), v2.drop_first(), p, item1, item2, at1, at2, eqv);
        assert(eqv(v1[0], v2[0]));
        assert forall|k: int| 0 <= k < v1.len() implies #[trigger] eqv(v1[k], v2[k]) by {
            if k > 0 {
                assert(v1[k] == v1.drop_first()[k - 1]);
                assert(v2[k] == v2.drop_first()[k - 1]);
            }
        }
    }
}

/// Two verification type lists decoded from the same bytes are equal.
pub proof fn lemma_vtis_equal(v1: Seq<VerificationType>, v2: Seq<VerificationType>, s: Seq<u8>, pos: int, end: int)
    requires
        items_at(v1, pos, vti_item(s, end), vti_check(s)),
        items_at(v2, pos, vti_item(s, end), vti_check(s)),
        v1.len() == v2.len(),
    ensures
        v1 == v2,
{
    let eqv = |a: VerificationType, b: VerificationType| a == b;
    assert forall|x: VerificationType, y: VerificationType, q: int|
        #[trigger] vti_check(s)(x, q) && #[trigger] vti_check(s)(y, q) implies eqv(x, y) by {
        assert(vti_at(x, s, q) && vti_at(y, s, q));
    }
    lemma_items_pairwise(v1, v2, pos, vti_item(s, end), vti_item(s, end), vti_check(s), vti_check(s), eqv);
    assert forall|k: int| 0 <= k < v1.len() implies v1[k] == v2[k] by {
        assert(eqv(v1[k], v2[k]));
    }
    assert(v1 =~= v2);
}

/// Two frames with the same shape and contents.
pub open spec fn same_frame(a: StackMapTableAttribute, b: StackMapTableAttribute) -> bool {
    match (a, b) {
        (StackMapTableAttribute::Same(x), StackMapTableAttribute::Same(y)) => x == y,
        (StackMapTableAttribute::SameLocalsOneStackItem(x), StackMapTableAttribute::SameLocalsOneStackItem(y)) => x == y,
        (StackMapTableAttribute::SameLocalsOneStackItemExtended(x), StackMapTableAttribute::SameLocalsOneStackItemExtended(y)) => x == y,
        (StackMapTableAttribute::Chop(x), StackMapTableAttribute::Chop(y)) => x == y,
        (StackMapTableAttribute::SameExtended(x), StackMapTableAttribute::SameExtended(y)) => x == y,
        (StackMapTableAttribute::Append(x), StackMapTableAttribute::Append(y)) => x.offset_delta == y.offset_delta
            && x.locals@ == y.locals@,
        (StackMapTableAttribute::Full(x), StackMapTableAttribute::Full(y)) => x.offset_delta == y.offset_delta
            && x.locals@ == y.locals@ && x.stack@ == y.stack@,
        _ => false,
    }
}

pub proof fn lemma_frame_same(a: StackMapTableAttribute, b: StackMapTableAttribute, s: Seq<u8>, pos: int, end: int)
    requires
        frame_at(a, s, pos, end),
        frame_at(b, s, pos, end),
    ensures
        same_frame(a, b),
{
    match (a, b) {
        (StackMapTableAttribute::Append(x), StackMapTableAttribute::Append(y)) => {
            lemma_vtis_equal(x.locals@, y.locals@, s, pos + 3, end);
        },
        (StackMapTableAttribute::Full(x), StackMapTableAttribute::Full(y)) => {
            lemma_vtis_equal(x.locals@, y.locals@, s, pos + 5, end);
            let q = crate::list::spec_items(pos + 5, crate::bytes::be16(s, pos + 3) as nat, vti_item(s, end))->Ok_0;
            lemma_vtis_equal(x.stack@, y.stack@, s, q + 2, end);
        },
        _ => {},
    }
}

/// Two element values with the same shape and contents.
pub open spec fn same_ev(a: ElementValue, b: ElementValue) -> bool
    decreases a,
{
    match (a, b) {
        (ElementValue::Constant(x), ElementValue::Constant(y)) => x == y,
        (ElementValue::Enum(x), ElementValue::Enum(y)) => x == y,
        (ElementValue::Class(x), ElementValue::Class(y)) => x == y,
        (ElementValue::Annotation(x), ElementValue::Annotation(y)) => same_annotation(x.annotation, y.annotation),
        (ElementValue::Array(x), ElementValue::Array(y)) => x.array_values@.len() == y.array_values@.len()
            && forall|k: int| 0 <= k < x.array_values@.len() ==> same_ev(#[trigger] x.array_values@[k], y.array_values@[k]),
        _ => false,
    }
}

/// Two annotations with the same type and the same pairs.
pub open spec fn same_annotation(a: AnnotationAttribute, b: AnnotationAttribute) -> bool
    decreases a,
{
    &&& a.type_index == b.type_index
    &&& a.element_value_pairs@.len() == b.element_value_pairs@.len()
    &&& forall|k: int| 0 <= k < a.element_value_pairs@.len() ==> {
        &&& (#[trigger] a.element_value_pairs@[k]).element_name_index == b.element_value_pairs@[k].element_name_index
        &&& same_ev(a.element_value_pairs@[k].value, b.element_value_pairs@[k].value)
    }
}

pub proof fn lemma_ev_same(a: ElementValue, b: ElementValue, s: Seq<u8>, pos: int, end: int)
    requires
        ev_at(a, s, pos, end),
        ev_at(b, s, pos, end),
    ensures
        same_ev(a, b),
    decreases end - pos, 0int,
{
    match (a, b) {
        (ElementValue::Annotation(x), ElementValue::Annotation(y)) => {
            lemma_annotation_same(x.annotation, y.annotation, s, pos + 1, end);
        },
        (ElementValue::Array(x), ElementValue::Array(y)) => {
            lemma_evs_same(x.array_values@, y.array_values@, s, pos + 3, end);
        },
        _ => {},
    }
}

proof fn lemma_evs_same(v1: Seq<ElementValue>, v2: Seq<ElementValue>, s: Seq<u8>, pos: int, end: int)
    requires
        evs_at(v1, s, pos, end),
        evs_at(v2, s, pos, end),
        v1.len() == v2.len(),
    ensures
        forall|k: int| 0 <= k < v1.len() ==> same_ev(#[trigger] v1[k], v2[k]),
    decreases end - pos, v1.len(),
{
    if v1.len() > 0 {
        lemma_ev_same(v1[0], v2[0], s, pos, end);
        let p = spec_ev(s, pos, end)->Ok_0;
        lemma_evs_same(v1.drop_first(), v2.drop_first(), s, p, end);
        assert forall|k: int| 0 <= k < v1.len() implies same_ev(#[trigger] v1[k], v2[k]) by {
            if k > 0 {
                assert(v1[k] == v1.drop_first()[k - 1]);
                assert(v2[k] == v2.drop_first()[k - 1]);
            }
        }
    }
}

pub proof fn lemma_annotation_same(a: AnnotationAttribute, b: AnnotationAttribute, s: Seq<u8>, pos: int, end: int)
    requires
        annotation_at(a, s, pos, end),
        annotation_at(b, s, pos, end),
    ensures
        same_annotation(a, b),
    decreases end - pos, 0int,
{
    lemma_pairs_same(a.element_value_pairs@, b.element_value_pairs@, s, pos + 4, end);
}

proof fn lemma_pairs_same(v1: Seq<ElementValuePair>, v2: Seq<ElementValuePair>, s: Seq<u8>, pos: int, end: int)
    requires
        pairs_at(v1, s, pos, end),
        pairs_at(v2, s, pos, end),
        v1.len() == v2.len(),
    ensures
        forall|k: int| 0 <= k < v1.len() ==> {
            &&& (#[trigger] v1[k]).element_name_index == v2[k].element_name_index
            &&& same_ev(v1[k].value, v2[k].value)
        },
    decreases end - pos, v1.len(),
{
    if v1.len() > 0 {
        lemma_ev_same(v1[0].value, v2[0].value, s, pos + 2, end);
        let q = spec_ev(s, pos + 2, end)->Ok_0;
        lemma_pairs_same(v1.drop_first(), v2.drop_first(), s, q, end);
        assert forall|k: int| 0 <= k < v1.len() implies {
            &&& (#[trigger] v1[k]).element_name_index == v2[k].element_name_index
            &&& same_ev(v1[k].value, v2[k].value)
        } by {
            if k > 0 {
                assert(v1[k] == v1.drop_first()[k - 1]);
                assert(v2[k] == v2.drop_first()[k - 1]);
            }
        }
    }
}

/// Two lists of annotations that agree item by item.
pub open spec fn same_annotations(v1: Seq<AnnotationAttribute>, v2: Seq<AnnotationAttribute>) -> bool {
    v1.len() == v2.len() && forall|k: int| 0 <= k < v1.len() ==> same_annotation(#[trigger] v1[k], v2[k])
}

pub proof fn lemma_annotations_same(v1: Seq<AnnotationAttribute>, v2: Seq<AnnotationAttribute>, s: Seq<u8>, pos: int, end: int)
    requires
        crate::attributes::annotations_at(v1, s, pos, end),
        crate::attributes::annotations_at(v2, s, pos, end),
    ensures
        same_annotations(v1, v2),
{
    let eqv = |a: AnnotationAttribute, b: AnnotationAttribute| same_annotation(a, b);
    assert forall|x: AnnotationAttribute, y: AnnotationAttribute, q: int|
        #[trigger] annotation_check(s, end)(x, q) && #[trigger] annotation_check(s, end)(y, q) implies eqv(x, y) by {
        lemma_annotation_same(x, y, s, q, end);
    }
    lemma_items_pairwise(v1, v2, pos + 2, annotation_item(s, end), annotation_item(s, end),
        annotation_check(s, end), annotation_check(s, end), eqv);
    assert forall|k: int| 0 <= k < v1.len() implies same_annotation(#[trigger] v1[k], v2[k]) by {
        assert(eqv(v1[k], v2[k]));
    }
}

/// Two attributes with the same kind and contents.
pub open spec fn same_attribute(a: Attribute, b: Attribute) -> bool
    decreases a,
{
    match (a, b) {
        (Attribute::ConstantValue(x), Attribute::ConstantValue(y)) => x == y,
        (Attribute::Code(x), Attribute::Code(y)) => {
            &&& x.max_stack == y.max_stack
            &&& x.max_locals == y.max_locals
            &&& x.code@ == y.code@
            &&& x.exception_tables@ == y.exception_tables@
            &&& x.attributes@.len() == y.attributes@.len()
            &&& forall|k: int| 0 <= k < x.attributes@.len() ==> same_attribute(#[trigger] x.attributes@[k], y.attributes@[k])
        },
        (Attribute::StackMapTable(x), Attribute::StackMapTable(y)) => x@.len() == y@.len()
            && forall|k: int| 0 <= k < x@.len() ==> same_frame(#[trigger] x@[k], y@[k]),
        (Attribute::Exceptions(x), Attribute::Exceptions(y)) => x@ == y@,
        (Attribute::InnerClasses(x), Attribute::InnerClasses(y)) => x@ == y@,
        (Attribute::EnclosingMethod(x), Attribute::EnclosingMethod(y)) => x == y,
        (Attribute::Synthetic, Attribute::Synthetic) => true,
        (Attribute::Signature(x), Attribute::Signature(y)) => x == y,
        (Attribute::SourceFile(x), Attribute::SourceFile(y)) => x == y,
        (Attribute::SourceDebugExtension(x), Attribute::SourceDebugExtension(y)) => x.debug_info@ == y.debug_info@,
        (Attribute::LineNumberTable(x), Attribute::LineNumberTable(y)) => x@ == y@,
        (Attribute::LocalVariableTable(x), Attribute::LocalVariableTable(y)) => x@ == y@,
        (Attribute::LocalVariableTypeTable(x), Attribute::LocalVariableTypeTable(y)) => x@ == y@,
        (Attribute::Deprecated, Attribute::Deprecated) => true,
        (Attribute::RuntimeVisibleAnnotations(x), Attribute::RuntimeVisibleAnnotations(y)) => same_annotations(x@, y@),
        (Attribute::RuntimeInvisibleAnnotations(x), Attribute::RuntimeInvisibleAnnotations(y)) => same_annotations(x@, y@),
        (Attribute::RuntimeVisibleParameterAnnotations(x), Attribute::RuntimeVisibleParameterAnnotations(y)) => x@.len() == y@.len()
            && forall|k: int| 0 <= k < x@.len() ==> same_annotations((#[trigger] x@[k]).annotations@, y@[k].annotations@),
        (Attribute::RuntimeInvisibleParameterAnnotations(x), Attribute::RuntimeInvisibleParameterAnnotations(y)) => x@.len() == y@.len()
            && forall|k: int| 0 <= k < x@.len() ==> same_annotations((#[trigger] x@[k]).annotations@, y@[k].annotations@),
        (Attribute::AnnotationDefault(x), Attribute::AnnotationDefault(y)) => same_ev(x.default_value, y.default_value),
        (Attribute::BootstrapMethods(x), Attribute::BootstrapMethods(y)) => x@.len() == y@.len()
            && forall|k: int| 0 <= k < x@.len() ==> {
                &&& (#[trigger] x@[k]).bootstrap_method_ref == y@[k].bootstrap_method_ref
                &&& x@[k].bootstrap_arguments@ == y@[k].bootstrap_arguments@
            },
        (Attribute::Misc(x), Attribute::Misc(y)) => x.name_index == y.name_index && x.info@ == y.info@,
        _ => false,
    }
}

/// Two lists of attributes that agree item by item.
pub open spec fn same_attributes(v1: Seq<Attribute>, v2: Seq<Attribute>) -> bool {
    v1.len() == v2.len() && forall|k: int| 0 <= k < v1.len() ==> same_attribute(#[trigger] v1[k], v2[k])
}

pub proof fn lemma_attribute_same(a: Attribute, b: Attribute, s: Seq<u8>, pos: int, end: int, cs1: Seq<Constant>, cs2: Seq<Constant>)
    requires
        attribute_at(a, s, pos, end, cs1),
        attribute_at(b, s, pos, end, cs2),
        pools_agree(cs1, cs2),
    ensures
        same_attribute(a, b),
    decreases end - pos, 0int,
{
    let ni = be16(s, pos);
    let bend = pos + 6 + be32(s, pos + 2);
    assert(pool_entry(cs1, ni) is Some);
    assert(same_constant(pool_entry(cs1, ni)->Some_0, pool_entry(cs2, ni)->Some_0));
    if let Constant::Utf8(u) = pool_entry(cs1, ni)->Some_0 {
        lemma_body_same(a, b, crate::attributes::attribute_kind(u.string@), ni, s, pos + 6, bend, cs1, cs2);
    }
}

proof fn lemma_body_same(
    a: Attribute,
    b: Attribute,
    kind: AttributeKind,
    ni: int,
    s: Seq<u8>,
    pos: int,
    end: int,
    cs1: Seq<Constant>,
    cs2: Seq<Constant>,
)
    requires
        body_at(a, kind, ni, s, pos, end, cs1),
        body_at(b, kind, ni, s, pos, end, cs2),
        pools_agree(cs1, cs2),
    ensures
        same_attribute(a, b),
    decreases end - pos, 1int,
{
    match (a, b) {
        (Attribute::Code(x), Attribute::Code(y)) => {
            lemma_code_same(x, y, s, pos, end, cs1, cs2);
        },
        (Attribute::StackMapTable(x), Attribute::StackMapTable(y)) => {
            let eqv = |f: StackMapTableAttribute, g: StackMapTableAttribute| same_frame(f, g);
            assert forall|f: StackMapTableAttribute, g: StackMapTableAttribute, q: int|
                #[trigger] frame_check(s, end)(f, q) && #[trigger] frame_check(s, end)(g, q) implies eqv(f, g) by {
                lemma_frame_same(f, g, s, q, end);
            }
            lemma_items_pairwise(x@, y@, pos + 2, frame_item(s, end), frame_item(s, end), frame_check(s, end), frame_check(s, end), eqv);
            assert forall|k: int| 0 <= k < x@.len() implies same_frame(#[trigger] x@[k], y@[k]) by {
                assert(eqv(x@[k], y@[k]));
            }
        },
        (Attribute::Exceptions(x), Attribute::Exceptions(y)) => {
            assert forall|k: int| 0 <= k < x@.len() implies x@[k] == y@[k] by {
                assert(exception_index_at(x@[k], s, pos + 2 + 2 * k));
                assert(exception_index_at(y@[k], s, pos + 2 + 2 * k));
            }
            assert(x@ =~= y@);
        },
        (Attribute::LineNumberTable(x), Attribute::LineNumberTable(y)) => {
            assert forall|k: int| 0 <= k < x@.len() implies x@[k] == y@[k] by {
                assert(line_number_at(x@[k], s, pos + 2 + 4 * k));
                assert(line_number_at(y@[k], s, pos + 2 + 4 * k));
            }
            assert(x@ =~= y@);
        },
        (Attribute::LocalVariableTable(x), Attribute::LocalVariableTable(y)) => {
            assert forall|k: int| 0 <= k < x@.len() implies x@[k] == y@[k] by {
                assert(local_variable_at(x@[k], s, pos + 2 + 10 * k));
                assert(local_variable_at(y@[k], s, pos + 2 + 10 * k));
            }
            assert(x@ =~= y@);
        },
        (Attribute::LocalVariableTypeTable(x), Attribute::LocalVariableTypeTable(y)) => {
            assert forall|k: int| 0 <= k < x@.len() implies x@[k] == y@[k] by {
                assert(local_variable_type_at(x@[k], s, pos + 2 + 10 * k));
                assert(local_variable_type_at(y@[k], s, pos + 2 + 10 * k));
            }
            assert(x@ =~= y@);
        },
        (Attribute::InnerClasses(x), Attribute::InnerClasses(y)) => {
            let eqv = |f: InnerClassAttribute, g: InnerClassAttribute| f == g;
            assert forall|f: InnerClassAttribute, g: InnerClassAttribute, q: int|
                #[trigger] inner_class_check(s, end)(f, q) && #[trigger] inner_class_check(s, end)(g, q) implies eqv(f, g) by {
                assert(inner_class_at(f, s, q) && inner_class_at(g, s, q));
            }
            lemma_items_pairwise(x@, y@, pos + 2, inner_class_item(s, end), inner_class_item(s, end),
                inner_class_check(s, end), inner_class_check(s, end), eqv);
            assert forall|k: int| 0 <= k < x@.len() implies x@[k] == y@[k] by {
                assert(eqv(x@[k], y@[k]));
            }
            assert(x@ =~= y@);
        },
        (Attribute::RuntimeVisibleAnnotations(x), Attribute::RuntimeVisibleAnnotations(y)) => {
            lemma_annotations_same(x@, y@, s, pos, end);
        },
        (Attribute::RuntimeInvisibleAnnotations(x), Attribute::RuntimeInvisibleAnnotations(y)) => {
            lemma_annotations_same(x@, y@, s, pos, end);
        },
        (Attribute::RuntimeVisibleParameterAnnotations(x), Attribute::RuntimeVisibleParameterAnnotations(y)) => {
            lemma_parameters_same(x@, y@, s, pos, end);
        },
        (Attribute::RuntimeInvisibleParameterAnnotations(x), Attribute::RuntimeInvisibleParameterAnnotations(y)) => {
            lemma_parameters_same(x@, y@, s, pos, end);
        },
        (Attribute::AnnotationDefault(x), Attribute::AnnotationDefault(y)) => {
            lemma_ev_same(x.default_value, y.default_value, s, pos, end);
        },
        (Attribute::BootstrapMethods(x), Attribute::BootstrapMethods(y)) => {
            let eqv = |f: BootstrapMethodAttribute, g: BootstrapMethodAttribute|
                f.bootstrap_method_ref == g.bootstrap_method_ref && f.bootstrap_arguments@ == g.bootstrap_arguments@;
            assert forall|f: BootstrapMethodAttribute, g: BootstrapMethodAttribute, q: int|
                #[trigger] bootstrap_check(s, end)(f, q) && #[trigger] bootstrap_check(s, end)(g, q) implies eqv(f, g) by {
                assert(bootstrap_at(f, s, q) && bootstrap_at(g, s, q));
                assert forall|m: int| 0 <= m < f.bootstrap_arguments@.len() implies f.bootstrap_arguments@[m] == g.bootstrap_arguments@[m] by {
                    assert(u16_at(f.bootstrap_arguments@[m], s, q + 4 + 2 * m));
                    assert(u16_at(g.bootstrap_arguments@[m], s, q + 4 + 2 * m));
                }
                assert(f.bootstrap_arguments@ =~= g.bootstrap_arguments@);
            }
            lemma_items_pairwise(x@, y@, pos + 2, bootstrap_item(s, end), bootstrap_item(s, end),
                bootstrap_check(s, end), bootstrap_check(s, end), eqv);
            assert forall|k: int| 0 <= k < x@.len() implies {
                &&& (#[trigger] x@[k]).bootstrap_method_ref == y@[k].bootstrap_method_ref
                &&& x@[k].bootstrap_arguments@ == y@[k].bootstrap_arguments@
            } by {
                assert(eqv(x@[k], y@[k]));
            }
        },
        _ => {},
    }
}

proof fn lemma_parameters_same(
    v1: Seq<crate::annotations::ParameterAnnotationAttribute>,
    v2: Seq<crate::annotations::ParameterAnnotationAttribute>,
    s: Seq<u8>,
    pos: int,
    end: int,
)
    requires
        crate::attributes::parameters_at(v1, s, pos, end),
        crate::attributes::parameters_at(v2, s, pos, end),
    ensures
        v1.len() == v2.len(),
        forall|k: int| 0 <= k < v1.len() ==> same_annotations((#[trigger] v1[k]).annotations@, v2[k].annotations@),
{
    let eqv = |f: crate::annotations::ParameterAnnotationAttribute, g: crate::annotations::ParameterAnnotationAttribute|
        same_annotations(f.annotations@, g.annotations@);
    assert forall|f: crate::annotations::ParameterAnnotationAttribute, g: crate::annotations::ParameterAnnotationAttribute, q: int|
        #[trigger] parameter_check(s, end)(f, q) && #[trigger] parameter_check(s, end)(g, q) implies eqv(f, g) by {
        assert(parameter_at(f, s, q, end) && parameter_at(g, s, q, end));
        lemma_annotations_same(f.annotations@, g.annotations@, s, q, end);
    }
    lemma_items_pairwise(v1, v2, pos + 1, parameter_item(s, end), parameter_item(s, end), parameter_check(s, end), parameter_check(s, end), eqv);
    assert forall|k: int| 0 <= k < v1.len() implies same_annotations((#[trigger] v1[k]).annotations@, v2[k].annotations@) by {
        assert(eqv(v1[k], v2[k]));
    }
}

proof fn lemma_code_same(x: CodeAttribute, y: CodeAttribute, s: Seq<u8>, pos: int, end: int, cs1: Seq<Constant>, cs2: Seq<Constant>)
    requires
        code_at(x, s, pos, end, cs1),
        code_at(y, s, pos, end, cs2),
        pools_agree(cs1, cs2),
    ensures
        x.max_stack == y.max_stack,
        x.max_locals == y.max_locals,
        x.code@ == y.code@,
        x.exception_tables@ == y.exception_tables@,
        same_attributes(x.attributes@, y.attributes@),
    decreases end - pos, 0int,
{
    let q = pos + 8 + be32(s, pos + 4);
    let q2 = q + 2 + 8 * be16(s, q);
    assert forall|k: int| 0 <= k < x.exception_tables@.len() implies x.exception_tables@[k] == y.exception_tables@[k] by {
        assert(exception_entry_at(x.exception_tables@[k], s, q + 2 + 8 * k));
        assert(exception_entry_at(y.exception_tables@[k], s, q + 2 + 8 * k));
    }
    assert(x.exception_tables@ =~= y.exception_tables@);
    lemma_attrs_same(x.attributes@, y.attributes@, s, q2 + 2, end, cs1, cs2);
}

pub proof fn lemma_attrs_same(v1: Seq<Attribute>, v2: Seq<Attribute>, s: Seq<u8>, pos: int, end: int, cs1: Seq<Constant>, cs2: Seq<Constant>)
    requires
        attributes_at(v1, s, pos, end, cs1),
        attributes_at(v2, s, pos, end, cs2),
        v1.len() == v2.len(),
        pools_agree(cs1, cs2),
    ensures
        same_attributes(v1, v2),
    decreases end - pos, v1.len(),
{
    if v1.len() > 0 {
        lemma_attribute_same(v1[0], v2[0], s, pos, end, cs1, cs2);
        lemma_attribute_agree(s, pos, end, cs1, cs2);
        let p = spec_attribute(s, pos, end, cs1)->Ok_0;
        lemma_attrs_same(v1.drop_first(), v2.drop_first(), s, p, end, cs1, cs2);
        assert forall|k: int| 0 <= k < v1.len() implies same_attribute(#[trigger] v1[k], v2[k]) by {
            if k > 0 {
                assert(v1[k] == v1.drop_first()[k - 1]);
                assert(v2[k] == v2.drop_first()[k - 1]);
            }
        }
    }
}

/// Two fields with the same flags, name, descriptor and attributes.
pub open spec fn same_field(a: FieldInfo, b: FieldInfo) -> bool {
    &&& a.access_flags == b.access_flags
    &&& a.name_index == b.name_index
    &&& a.descriptor_index == b.descriptor_index
    &&& same_attributes(a.attributes@, b.attributes@)
}

/// Two methods with the same flags, name, descriptor and attributes.
pub open spec fn same_method(a: MethodInfo, b: MethodInfo) -> bool {
    &&& a.access_flags == b.access_flags
    &&& a.name_index == b.name_index
    &&& a.descriptor_index == b.descriptor_index
    &&& same_attributes(a.attributes@, b.attributes@)
}

/// Two classes that agree in every part: version, pool (entry by entry),
/// header, interfaces, and each field, method and attribute.
pub open spec fn same_class(a: Class, b: Class) -> bool {
    let cs1 = a.constant_pool.constants@;
    let cs2 = b.constant_pool.constants@;
    &&& a.minor_version == b.minor_version
    &&& a.major_version == b.major_version
    &&& cs1.len() == cs2.len()
    &&& (forall|k: int| 0 <= k < cs1.len() ==> same_constant(#[trigger] cs1[k], cs2[k]))
    &&& a.constant_pool.slots@ == b.constant_pool.slots@
    &&& pools_agree(cs1, cs2)
    &&& a.access_flags == b.access_flags
    &&& a.this_class == b.this_class
    &&& a.super_class == b.super_class
    &&& a.interfaces@ == b.interfaces@
    &&& a.fields@.len() == b.fields@.len()
    &&& (forall|k: int| 0 <= k < a.fields@.len() ==> same_field(#[trigger] a.fields@[k], b.fields@[k]))
    &&& a.methods@.len() == b.methods@.len()
    &&& (forall|k: int| 0 <= k < a.methods@.len() ==> same_method(#[trigger] a.methods@[k], b.methods@[k]))
    &&& same_attributes(a.attributes@, b.attributes@)
}

proof fn lemma_fields_same(v1: Seq<FieldInfo>, v2: Seq<FieldInfo>, s: Seq<u8>, pos: int, end: int, cs1: Seq<Constant>, cs2: Seq<Constant>)
    requires
        fields_at(v1, s, pos, end, cs1),
        fields_at(v2, s, pos, end, cs2),
        pools_agree(cs1, cs2),
    ensures
        v1.len() == v2.len(),
        forall|k: int| 0 <= k < v1.len() ==> same_field(#[trigger] v1[k], v2[k]),
{
    lemma_members_agree(s, end, cs1, cs2, FIELD_FLAGS_MASK, FlagScope::Field);
    assert forall|q: int| #[trigger] field_item(s, end, cs1)(q) == field_item(s, end, cs2)(q) by {
        assert(crate::class::spec_member(s, q, end, cs1, FIELD_FLAGS_MASK, FlagScope::Field)
            == crate::class::spec_member(s, q, end, cs2, FIELD_FLAGS_MASK, FlagScope::Field));
    }
    let eqv = |f: FieldInfo, g: FieldInfo| same_field(f, g);
    assert forall|f: FieldInfo, g: FieldInfo, q: int|
        #[trigger] field_check(s, end, cs1)(f, q) && #[trigger] field_check(s, end, cs2)(g, q) implies eqv(f, g) by {
        assert(field_at(f, s, q, end, cs1) && field_at(g, s, q, end, cs2));
        lemma_attrs_same(f.attributes@, g.attributes@, s, q + 8, end, cs1, cs2);
    }
    lemma_items_pairwise(v1, v2, pos + 2, field_item(s, end, cs1), field_item(s, end, cs2), field_check(s, end, cs1), field_check(s, end, cs2), eqv);
    assert forall|k: int| 0 <= k < v1.len() implies same_field(#[trigger] v1[k], v2[k]) by {
        assert(eqv(v1[k], v2[k]));
    }
}

proof fn lemma_methods_same(v1: Seq<MethodInfo>, v2: Seq<MethodInfo>, s: Seq<u8>, pos: int, end: int, cs1: Seq<Constant>, cs2: Seq<Constant>)
    requires
        methods_at(v1, s, pos, end, cs1),
        methods_at(v2, s, pos, end, cs2),
        pools_agree(cs1, cs2),
    ensures
        v1.len() == v2.len(),
        forall|k: int| 0 <= k < v1.len() ==> same_method(#[trigger] v1[k], v2[k]),
{
    lemma_members_agree(s, end, cs1, cs2, METHOD_FLAGS_MASK, FlagScope::Method);
    assert forall|q: int| #[trigger] method_item(s, end, cs1)(q) == method_item(s, end, cs2)(q) by {
        assert(crate::class::spec_member(s, q, end, cs1, METHOD_FLAGS_MASK, FlagScope::Method)
            == crate::class::spec_member(s, q, end, cs2, METHOD_FLAGS_MASK, FlagScope::Method));
    }
    let eqv = |f: MethodInfo, g: MethodInfo| same_method(f, g);
    assert forall|f: MethodInfo, g: MethodInfo, q: int|
        #[trigger] method_check(s, end, cs1)(f, q) && #[trigger] method_check(s, end, cs2)(g, q) implies eqv(f, g) by {
        assert(method_at(f, s, q, end, cs1) && method_at(g, s, q, end, cs2));
        lemma_attrs_same(f.attributes@, g.attributes@, s, q + 8, end, cs1, cs2);
    }
    lemma_items_pairwise(v1, v2, pos + 2, method_item(s, end, cs1), method_item(s, end, cs2), method_check(s, end, cs1), method_check(s, end, cs2), eqv);
    assert forall|k: int| 0 <= k < v1.len() implies same_method(#[trigger] v1[k], v2[k]) by {
        assert(eqv(v1[k], v2[k]));
    }
}

/// Decoding is deterministic: two classes decoded from the same bytes agree
/// in every part (see `same_class`), the Utf8 constants character by
/// character.
#[verifier::rlimit(50)]
pub proof fn law_decoding_structurally_equal(s: Seq<u8>, c1: Class, c2: Class)
    requires
        class_at(c1, s),
        class_at(c2, s),
    ensures
        same_class(c1, c2),
{
    let end = s.len() as int;
    let cs1 = c1.constant_pool.constants@;
    let cs2 = c2.constant_pool.constants@;
    crate::laws::law_decoding_deterministic(s, c1, c2);
    lemma_class_summary(s, c1);
    lemma_class_summary(s, c2);
    let p = spec_class_head(s)->Ok_0;
    assert(pool_at(c1.constant_pool, s, 8, end));
    assert(pool_at(c2.constant_pool, s, 8, end));
    lemma_entries_unique(cs1, cs2, s, 10, end, be16(s, 8), 1);
    assert forall|k: int| 0 <= k < cs1.len() implies c1.constant_pool.slots@[k] == c2.constant_pool.slots@[k] by {
        crate::laws::lemma_slots_agree(cs1, cs2, k);
    }
    assert(c1.constant_pool.slots@ =~= c2.constant_pool.slots@);
    lemma_pools_agree(c1.constant_pool, c2.constant_pool, s, 8, end);
    lemma_rest_agree(s, p, cs1, cs2);
    assert(class_rest_at(c1, s, p));
    assert(class_rest_at(c2, s, p));
    let q1 = p + 8 + 2 * be16(s, p + 6);
    lemma_fields_same(c1.fields@, c2.fields@, s, q1, end, cs1, cs2);
    let q2 = spec_fields(s, q1, end, cs1)->Ok_0;
    lemma_methods_same(c1.methods@, c2.methods@, s, q2, end, cs1, cs2);
    let q3 = spec_methods(s, q2, end, cs1)->Ok_0;
    lemma_attrs_same(c1.attributes@, c2.attributes@, s, q3 + 2, end, cs1, cs2);
}

} // verus!
