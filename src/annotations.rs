use vstd::prelude::*;
use crate::bytes::{be16, read_u16, read_u8, take};
use crate::error::{ClassLoadingError, ErrorKind};

verus! {

/// A constant element value: `tag` is one of `B C D F I J S Z s`.
#[derive(Debug, Clone, Copy, PartialEq, Eq, Structural)]
pub struct ConstantElementValueAttribute {
    pub tag: u8,
    pub const_value_index: u16,
}

#[derive(Debug, Clone, Copy, PartialEq, Eq, Structural)]
pub struct EnumElementValue {
    pub type_name_index: u16,
    pub const_name_index: u16,
}

#[derive(Debug, Clone, Copy, PartialEq, Eq, Structural)]
pub struct ClassElementValueAttribute {
    pub class_info_index: u16,
}

#[derive(Debug)]
pub struct AnnotationElementValue {
    pub annotation: AnnotationAttribute,
}

#[derive(Debug)]
pub struct ArrayElementValue {
    pub array_values: Vec<ElementValue>,
}

#[derive(Debug)]
pub enum ElementValue {
    Constant(ConstantElementValueAttribute),
    Enum(EnumElementValue),
    Class(ClassElementValueAttribute),
    Annotation(AnnotationElementValue),
    Array(ArrayElementValue),
}

#[derive(Debug)]
pub struct ElementValuePair {
    pub element_name_index: u16,
    pub value: ElementValue,
}

#[derive(Debug)]
pub struct AnnotationAttribute {
    pub type_index: u16,
    pub element_value_pairs: Vec<ElementValuePair>,
}

/// The annotations of one parameter.
#[derive(Debug)]
pub struct ParameterAnnotationAttribute {
    pub annotations: Vec<AnnotationAttribute>,
}

#[derive(Debug)]
pub struct AnnotationDefaultAttribute {
    pub default_value: ElementValue,
}

/// The tags of constant element values: `B C D F I J S Z s`.
pub open spec fn is_const_tag(t: u8) -> bool {
    t == 66 || t == 67 || t == 68 || t == 70 || t == 73 || t == 74 || t == 83 || t == 90 || t == 115
}

fn const_tag(t: u8) -> (r: bool)
    ensures
        r == is_const_tag(t),
{
    t == 66 || t == 67 || t == 68 || t == 70 || t == 73 || t == 74 || t == 83 || t == 90 || t == 115
}

/// Where the element value at `pos` ends, or the error met.
pub open spec fn spec_ev(s: Seq<u8>, pos: int, end: int) -> Result<int, ErrorKind>
    decreases end - pos, 0int,
{
    match take(pos, 1, end) {
        Err(e) => Err(e),
        Ok(p) => {
            let t = s[pos];
            if is_const_tag(t) || t == 99 {
                take(p, 2, end)
            } else if t == 101 {
                take(p, 4, end)
            } else if t == 64 {
                spec_annotation(s, p, end)
            } else if t == 91 {
                match take(p, 2, end) {
                    Err(e) => Err(e),
                    Ok(q) => spec_evs(s, q, end, be16(s, p)),
                }
            } else {
                Err(ErrorKind::UnknownElementValueTag(t))
            }
        },
    }
}

/// Where `n` element values from `pos` end, or the first error met.
pub open spec fn spec_evs(s: Seq<u8>, pos: int, end: int, n: int) -> Result<int, ErrorKind>
    decreases end - pos, n,
{
    if n <= 0 {
        Ok(pos)
    } else {
        match spec_ev(s, pos, end) {
            Err(e) => Err(e),
            Ok(p) => if pos < p <= end { spec_evs(s, p, end, n - 1) } else { Err(ErrorKind::UnexpectedEof) },
        }
    }
}

/// Where the annotation at `pos` ends, or the error met.
pub open spec fn spec_annotation(s: Seq<u8>, pos: int, end: int) -> Result<int, ErrorKind>
    decreases end - pos, 0int,
{
    match take(pos, 4, end) {
        Err(e) => Err(e),
        Ok(p) => spec_pairs(s, p, end, be16(s, pos + 2)),
    }
}

/// Where `n` element-value pairs from `pos` end, or the first error met.
pub open spec fn spec_pairs(s: Seq<u8>, pos: int, end: int, n: int) -> Result<int, ErrorKind>
    decreases end - pos, n,
{
    if n <= 0 {
        Ok(pos)
    } else {
        match take(pos, 2, end) {
            Err(e) => Err(e),
            Ok(p) => match spec_ev(s, p, end) {
                Err(e) => Err(e),
                Ok(q) => if pos < q <= end { spec_pairs(s, q, end, n - 1) } else { Err(ErrorKind::UnexpectedEof) },
            },
        }
    }
}

/// `v` is the element value encoded at `pos`.
pub open spec fn ev_at(v: ElementValue, s: Seq<u8>, pos: int, end: int) -> bool
    decreases end - pos, 0int,
{
    let t = s[pos];
    let p = pos + 1;
    pos < end && match v {
        ElementValue::Constant(c) => is_const_tag(t) && c.tag == t && c.const_value_index as int == be16(s, p),
        ElementValue::Enum(e) => t == 101 && e.type_name_index as int == be16(s, p)
            && e.const_name_index as int == be16(s, p + 2),
        ElementValue::Class(c) => t == 99 && c.class_info_index as int == be16(s, p),
        ElementValue::Annotation(a) => t == 64 && annotation_at(a.annotation, s, p, end),
        ElementValue::Array(a) => t == 91 && p + 2 <= end && a.array_values@.len() == be16(s, p)
            && evs_at(a.array_values@, s, p + 2, end),
    }
}

/// `v` are the element values encoded one after another from `pos`.
pub open spec fn evs_at(v: Seq<ElementValue>, s: Seq<u8>, pos: int, end: int) -> bool
    decreases end - pos, v.len(),
{
    if v.len() == 0 {
        true
    } else {
        &&& ev_at(v[0], s, pos, end)
        &&& match spec_ev(s, pos, end) {
            Ok(p) => pos < p <= end && evs_at(v.drop_first(), s, p, end),
            Err(_) => false,
        }
    }
}

/// `a` is the annotation encoded at `pos`.
pub open spec fn annotation_at(a: AnnotationAttribute, s: Seq<u8>, pos: int, end: int) -> bool
    decreases end - pos, 0int,
{
    &&& pos + 4 <= end
    &&& a.type_index as int == be16(s, pos)
    &&& a.element_value_pairs@.len() == be16(s, pos + 2)
    &&& pairs_at(a.element_value_pairs@, s, pos + 4, end)
}

/// `v` are the element-value pairs encoded one after another from `pos`.
pub open spec fn pairs_at(v: Seq<ElementValuePair>, s: Seq<u8>, pos: int, end: int) -> bool
    decreases end - pos, v.len(),
{
    if v.len() == 0 {
        true
    } else {
        &&& pos + 2 <= end
        &&& v[0].element_name_index as int == be16(s, pos)
        &&& ev_at(v[0].value, s, pos + 2, end)
        &&& match spec_ev(s, pos + 2, end) {
            Ok(q) => pos < q <= end && pairs_at(v.drop_first(), s, q, end),
            Err(_) => false,
        }
    }
}

proof fn lemma_evs_step(v: Seq<ElementValue>, x: ElementValue, s: Seq<u8>, pos0: int, pos: int, p: int, end: int)
    requires
        forall|w: Seq<ElementValue>| evs_at(w, s, pos, end) ==> #[trigger] evs_at(v + w, s, pos0, end),
        ev_at(x, s, pos, end),
        spec_ev(s, pos, end) == Ok::<int, ErrorKind>(p),
        pos < p <= end,
    ensures
        forall|w: Seq<ElementValue>| evs_at(w, s, p, end) ==> #[trigger] evs_at(v.push(x) + w, s, pos0, end),
{
    assert forall|w: Seq<ElementValue>| evs_at(w, s, p, end) implies #[trigger] evs_at(v.push(x) + w, s, pos0, end) by {
        let y = seq![x] + w;
        assert(y.drop_first() =~= w);
        assert(evs_at(y, s, pos, end));
        assert(v + y =~= v.push(x) + w);
    }
}

proof fn lemma_pairs_step(v: Seq<ElementValuePair>, x: ElementValuePair, s: Seq<u8>, pos0: int, pos: int, p: int, end: int)
    requires
        forall|w: Seq<ElementValuePair>| pairs_at(w, s, pos, end) ==> #[trigger] pairs_at(v + w, s, pos0, end),
        pos + 2 <= end,
        x.element_name_index as int == be16(s, pos),
        ev_at(x.value, s, pos + 2, end),
        spec_ev(s, pos + 2, end) == Ok::<int, ErrorKind>(p),
        pos < p <= end,
    ensures
        forall|w: Seq<ElementValuePair>| pairs_at(w, s, p, end) ==> #[trigger] pairs_at(v.push(x) + w, s, pos0, end),
{
    assert forall|w: Seq<ElementValuePair>| pairs_at(w, s, p, end) implies #[trigger] pairs_at(v.push(x) + w, s, pos0, end) by {
        let y = seq![x] + w;
        assert(y.drop_first() =~= w);
        assert(pairs_at(y, s, pos, end));
        assert(v + y =~= v.push(x) + w);
    }
}

/// Decodes the element value at `pos`.
pub fn read_element_value(s: &[u8], pos: usize, end: usize) -> (r: Result<(ElementValue, usize), ClassLoadingError>)
    requires
        pos <= end <= s@.len(),
    ensures
        match r {
            Ok((v, p)) => spec_ev(s@, pos as int, end as int) == Ok::<int, ErrorKind>(p as int)
                && ev_at(v, s@, pos as int, end as int) && pos < p <= end,
            Err(e) => spec_ev(s@, pos as int, end as int) == Err::<int, ErrorKind>(e.kind),
        },
    decreases end - pos,
{
    let (t, p) = read_u8(s, pos, end)?;
    if const_tag(t) {
        let (const_value_index, q) = read_u16(s, p, end)?;
        Ok((ElementValue::Constant(ConstantElementValueAttribute { tag: t, const_value_index }), q))
    } else if t == 99 {
        let (class_info_index, q) = read_u16(s, p, end)?;
        Ok((ElementValue::Class(ClassElementValueAttribute { class_info_index }), q))
    } else if t == 101 {
        let (type_name_index, q) = read_u16(s, p, end)?;
        let (const_name_index, q) = read_u16(s, q, end)?;
        Ok((ElementValue::Enum(EnumElementValue { type_name_index, const_name_index }), q))
    } else if t == 64 {
        let (annotation, q) = read_annotation(s, p, end)?;
        Ok((ElementValue::Annotation(AnnotationElementValue { annotation }), q))
    } else if t == 91 {
        let (n, p0) = read_u16(s, p, end)?;
        let n = n as usize;
        let mut v: Vec<ElementValue> = Vec::new();
        let mut q = p0;
        let mut i: usize = 0;
        proof {
            assert forall|w: Seq<ElementValue>| evs_at(w, s@, p0 as int, end as int)
                implies #[trigger] evs_at(v@ + w, s@, p0 as int, end as int) by {
                assert(v@ + w =~= w);
            }
        }
        while i < n
            invariant
                pos < p0 <= q <= end <= s@.len(),
                p0 == pos + 3,
                i <= n,
                v@.len() == i,
                spec_ev(s@, pos as int, end as int) == spec_evs(s@, p0 as int, end as int, n as int),
                spec_evs(s@, p0 as int, end as int, n as int) == spec_evs(s@, q as int, end as int, (n - i) as int),
                forall|w: Seq<ElementValue>| evs_at(w, s@, q as int, end as int) ==> #[trigger] evs_at(v@ + w, s@, p0 as int, end as int),
            decreases n - i,
        {
            let (x, q2) = match read_element_value(s, q, end) {
                Ok(x) => x,
                Err(e) => {
                    assert(spec_evs(s@, q as int, end as int, (n - i) as int) == Err::<int, ErrorKind>(e.kind));
                    return Err(e);
                },
            };
            proof { lemma_evs_step(v@, x, s@, p0 as int, q as int, q2 as int, end as int); }
            assert(spec_evs(s@, q as int, end as int, (n - i) as int) == spec_evs(s@, q2 as int, end as int, (n - (i + 1)) as int));
            v.push(x);
            q = q2;
            i = i + 1;
        }
        proof {
            assert(spec_evs(s@, q as int, end as int, 0) == Ok::<int, ErrorKind>(q as int));
            assert(evs_at(Seq::<ElementValue>::empty(), s@, q as int, end as int));
            assert(evs_at(v@ + Seq::<ElementValue>::empty(), s@, p0 as int, end as int));
            assert(v@ + Seq::<ElementValue>::empty() =~= v@);
        }
        Ok((ElementValue::Array(ArrayElementValue { array_values: v }), q))
    } else {
        Err(ClassLoadingError::new(ErrorKind::UnknownElementValueTag(t)))
    }
}

/// Decodes the annotation at `pos`: its type index, then its element-value pairs.
pub fn read_annotation(s: &[u8], pos: usize, end: usize) -> (r: Result<(AnnotationAttribute, usize), ClassLoadingError>)
    requires
        pos <= end <= s@.len(),
    ensures
        match r {
            Ok((a, p)) => spec_annotation(s@, pos as int, end as int) == Ok::<int, ErrorKind>(p as int)
                && annotation_at(a, s@, pos as int, end as int) && pos < p <= end,
            Err(e) => spec_annotation(s@, pos as int, end as int) == Err::<int, ErrorKind>(e.kind),
        },
    decreases end - pos,
{
    let (type_index, p) = read_u16(s, pos, end)?;
    let (n, p0) = read_u16(s, p, end)?;
    let n = n as usize;
    let mut v: Vec<ElementValuePair> = Vec::new();
    let mut q = p0;
    let mut i: usize = 0;
    proof {
        assert forall|w: Seq<ElementValuePair>| pairs_at(w, s@, p0 as int, end as int)
            implies #[trigger] pairs_at(v@ + w, s@, p0 as int, end as int) by {
            assert(v@ + w =~= w);
        }
    }
    while i < n
        invariant
            pos < p0 <= q <= end <= s@.len(),
            p0 == pos + 4,
            i <= n,
            v@.len() == i,
            spec_annotation(s@, pos as int, end as int) == spec_pairs(s@, p0 as int, end as int, n as int),
            spec_pairs(s@, p0 as int, end as int, n as int) == spec_pairs(s@, q as int, end as int, (n - i) as int),
            forall|w: Seq<ElementValuePair>| pairs_at(w, s@, q as int, end as int) ==> #[trigger] pairs_at(v@ + w, s@, p0 as int, end as int),
        decreases n - i,
    {
        let (element_name_index, q1) = match read_u16(s, q, end) {
            Ok(x) => x,
            Err(e) => {
                assert(spec_pairs(s@, q as int, end as int, (n - i) as int) == Err::<int, ErrorKind>(e.kind));
                return Err(e);
            },
        };
        let (value, q2) = match read_element_value(s, q1, end) {
            Ok(x) => x,
            Err(e) => {
                assert(spec_pairs(s@, q as int, end as int, (n - i) as int) == Err::<int, ErrorKind>(e.kind));
                return Err(e);
            },
        };
        let x = ElementValuePair { element_name_index, value };
        proof { lemma_pairs_step(v@, x, s@, p0 as int, q as int, q2 as int, end as int); }
        assert(spec_pairs(s@, q as int, end as int, (n - i) as int) == spec_pairs(s@, q2 as int, end as int, (n - (i + 1)) as int));
        v.push(x);
        q = q2;
        i = i + 1;
    }
    proof {
        assert(spec_pairs(s@, q as int, end as int, 0) == Ok::<int, ErrorKind>(q as int));
        assert(pairs_at(Seq::<ElementValuePair>::empty(), s@, q as int, end as int));
        assert(pairs_at(v@ + Seq::<ElementValuePair>::empty(), s@, p0 as int, end as int));
        assert(v@ + Seq::<ElementValuePair>::empty() =~= v@);
    }
    Ok((AnnotationAttribute { type_index, element_value_pairs: v }, q))
}

} // verus!
