use vstd::prelude::*;
use crate::annotations::{is_const_tag, spec_annotation, spec_ev, spec_evs, spec_pairs};
use crate::attributes::{attribute_kind, spec_attribute, spec_attribute_list, spec_attributes, spec_body, AttributeKind};
use crate::bytes::{be16, be32, take};
use crate::class::{
    class_at, class_error, class_rest_at, field_item, interface_at, method_item, spec_class_head, spec_class_rest, spec_fields,
    spec_member, spec_methods, Class,
};
use crate::constant_pool::{
    constant_at, lemma_slot_strict, pool_at, pool_entries_at, logical_len_of, payload_size, pool_entry, slot_of, spec_constant, width, Constant, ConstantPool,
};
use crate::error::{ErrorKind, FlagScope};
use crate::flags::within_mask;
use crate::list::spec_items;
use crate::flags::{FIELD_FLAGS_MASK, METHOD_FLAGS_MASK};
use crate::stack_map::{spec_frame, spec_vti, vti_item};

verus! {

/// A successfully decoded class starts with the magic number, uses up all
/// of its bytes, and its pool has exactly `count - 1` logical slots.
pub proof fn law_class_consumes_input(s: Seq<u8>, c: Class)
    requires
        class_at(c, s),
    ensures
        be32(s, 0) == 0xCAFEBABE,
        spec_class_head(s) matches Ok(p) && spec_class_rest(s, p, c.constant_pool.constants@) == Ok::<int, ErrorKind>(s.len() as int),
        be16(s, 8) >= 1,
        logical_len_of(c.constant_pool.constants@) == be16(s, 8) - 1,
{
}

/// The logical index `i` is the second slot of a Long or Double.
pub open spec fn is_second_slot(cs: Seq<Constant>, i: int) -> bool {
    exists|k: int| 0 <= k < cs.len() && width(cs[k]) == 2 && #[trigger] slot_of(cs, k) == i - 1
}

proof fn lemma_find_slot(cs: Seq<Constant>, i: int, n: int)
    requires
        0 <= n <= cs.len(),
        1 <= i < slot_of(cs, n),
    ensures
        exists|k: int| 0 <= k < n && slot_of(cs, k) <= i < #[trigger] slot_of(cs, k + 1),
    decreases n,
{
    if i >= slot_of(cs, n - 1) {
        assert(slot_of(cs, n - 1) <= i < slot_of(cs, (n - 1) + 1));
    } else {
        lemma_find_slot(cs, i, n - 1);
    }
}

/// Every logical index from 1 to the pool's logical length resolves to a
/// constant, except the second slot of a Long or Double.
pub proof fn law_pool_index(pool: ConstantPool, i: int)
    requires
        pool.wf(),
        1 <= i <= logical_len_of(pool.constants@),
    ensures
        pool_entry(pool.constants@, i) is Some <==> !is_second_slot(pool.constants@, i),
{
    let cs = pool.constants@;
    let n = cs.len() as int;
    lemma_find_slot(cs, i, n);
    let k = choose|k: int| 0 <= k < n && slot_of(cs, k) <= i < #[trigger] slot_of(cs, k + 1);
    if slot_of(cs, k) == i {
        assert(pool_entry(cs, i) is Some);
        if is_second_slot(cs, i) {
            let m = choose|m: int| 0 <= m < cs.len() && width(cs[m]) == 2 && #[trigger] slot_of(cs, m) == i - 1;
            if m < k {
                lemma_slot_strict(cs, m + 1, k);
                if m + 1 == k {
                } else {
                    assert(slot_of(cs, m + 1) < slot_of(cs, k));
                }
            } else if k < m {
                lemma_slot_strict(cs, k, m);
            }
        }
    } else {
        assert(slot_of(cs, k) + 1 == i && width(cs[k]) == 2);
        assert(is_second_slot(cs, i));
        if pool_entry(cs, i) is Some {
            let m = choose|m: int| 0 <= m < cs.len() && #[trigger] slot_of(cs, m) == i;
            if m <= k {
                if m < k {
                    lemma_slot_strict(cs, m, k);
                }
            } else if m > k + 1 {
                lemma_slot_strict(cs, k + 1, m);
            }
        }
    }
}

/// A decoded attribute uses exactly the length it declares; a body that ends
/// short of that length is an error, and so is one that needs more.
pub proof fn law_attribute_length(s: Seq<u8>, pos: int, end: int, cs: Seq<Constant>)
    ensures
        spec_attribute(s, pos, end, cs) matches Ok(p) ==> p == pos + 6 + be32(s, pos + 2),
        ({
            let bend = pos + 6 + be32(s, pos + 2);
            pos + 6 <= bend <= end ==> match pool_entry(cs, be16(s, pos)) {
                Some(Constant::Utf8(u)) => match spec_body(attribute_kind(u.string@), s, pos + 6, bend, cs) {
                    Ok(q) => q != bend ==> spec_attribute(s, pos, end, cs)
                        == Err::<int, ErrorKind>(ErrorKind::TrailingAttributeBytes(be16(s, pos) as u16, (bend - q) as u32)),
                    Err(e) => spec_attribute(s, pos, end, cs) == Err::<int, ErrorKind>(e),
                },
                _ => true,
            }
        }),
{
}

proof fn lemma_vtis_never_reserved(pos: int, n: nat, s: Seq<u8>, end: int, t: u8)
    ensures
        spec_items(pos, n, vti_item(s, end)) != Err::<int, ErrorKind>(ErrorKind::ReservedStackFrame(t)),
    decreases n,
{
    if n > 0 {
        match spec_vti(s, pos, end) {
            Ok(p) => lemma_vtis_never_reserved(p, (n - 1) as nat, s, end, t),
            Err(_) => {},
        }
    }
}

/// The frame types 128 to 246 are reserved and rejected; every other frame
/// type selects a shape.
pub proof fn law_frame_tags(s: Seq<u8>, pos: int, end: int)
    requires
        pos < end,
    ensures
        (128 <= s[pos] <= 246) <==> spec_frame(s, pos, end) == Err::<int, ErrorKind>(ErrorKind::ReservedStackFrame(s[pos])),
{
    let t = s[pos];
    let q = pos + 3;
    if t > 246 && pos + 3 <= end {
        lemma_vtis_never_reserved(q, (t - 251) as nat, s, end, t);
        lemma_vtis_never_reserved(q + 2, be16(s, q) as nat, s, end, t);
        match spec_items(q + 2, be16(s, q) as nat, vti_item(s, end)) {
            Ok(q3) => lemma_vtis_never_reserved(q3 + 2, be16(s, q3) as nat, s, end, t),
            Err(_) => {},
        }
    }
}

/// Verification type tags above 8 are rejected; tags 0 to 8 are decoded.
pub proof fn law_verification_type_tags(s: Seq<u8>, pos: int, end: int)
    requires
        pos < end,
    ensures
        (s[pos] > 8) <==> spec_vti(s, pos, end) == Err::<int, ErrorKind>(ErrorKind::UnknownVerificationType(s[pos])),
{
}

/// Constant tags outside 1, 3 to 12, 15, 16 and 18 to 20 are rejected; the
/// others are decoded.
pub proof fn law_constant_tags(s: Seq<u8>, pos: int, end: int)
    requires
        pos < end,
    ensures
        (s[pos] != 1 && payload_size(s[pos]) is None)
            <==> spec_constant(s, pos, end) == Err::<int, ErrorKind>(ErrorKind::UnknownConstantTag(s[pos])),
{
}

/// The tags that an element value may start with: `B C D F I J S Z s e c @ [`.
pub open spec fn is_element_value_tag(t: u8) -> bool {
    is_const_tag(t) || t == 101 || t == 99 || t == 64 || t == 91
}

proof fn lemma_ev_error_tag(s: Seq<u8>, pos: int, end: int, t: u8)
    requires
        spec_ev(s, pos, end) == Err::<int, ErrorKind>(ErrorKind::UnknownElementValueTag(t)),
    ensures
        !is_element_value_tag(t),
    decreases end - pos, 0int,
{
    if pos + 1 <= end {
        let tag = s[pos];
        if tag == 64 {
            lemma_annotation_error_tag(s, pos + 1, end, t);
        } else if tag == 91 && pos + 3 <= end {
            lemma_evs_error_tag(s, pos + 3, end, be16(s, pos + 1), t);
        }
    }
}

proof fn lemma_evs_error_tag(s: Seq<u8>, pos: int, end: int, n: int, t: u8)
    requires
        spec_evs(s, pos, end, n) == Err::<int, ErrorKind>(ErrorKind::UnknownElementValueTag(t)),
    ensures
        !is_element_value_tag(t),
    decreases end - pos, n,
{
    if n > 0 {
        match spec_ev(s, pos, end) {
            Err(_) => lemma_ev_error_tag(s, pos, end, t),
            Ok(p) => if pos < p <= end {
                lemma_evs_error_tag(s, p, end, n - 1, t);
            },
        }
    }
}

proof fn lemma_annotation_error_tag(s: Seq<u8>, pos: int, end: int, t: u8)
    requires
        spec_annotation(s, pos, end) == Err::<int, ErrorKind>(ErrorKind::UnknownElementValueTag(t)),
    ensures
        !is_element_value_tag(t),
    decreases end - pos, 0int,
{
    if pos + 4 <= end {
        lemma_pairs_error_tag(s, pos + 4, end, be16(s, pos + 2), t);
    }
}

proof fn lemma_pairs_error_tag(s: Seq<u8>, pos: int, end: int, n: int, t: u8)
    requires
        spec_pairs(s, pos, end, n) == Err::<int, ErrorKind>(ErrorKind::UnknownElementValueTag(t)),
    ensures
        !is_element_value_tag(t),
    decreases end - pos, n,
{
    if n > 0 && pos + 2 <= end {
        match spec_ev(s, pos + 2, end) {
            Err(_) => lemma_ev_error_tag(s, pos + 2, end, t),
            Ok(q) => if pos < q <= end {
                lemma_pairs_error_tag(s, q, end, n - 1, t);
            },
        }
    }
}

/// Element value tags outside `B C D F I J S Z s e c @ [` are rejected with
/// that tag, and only they are: a known tag never ends in an unknown-tag
/// error that names it, nested values included. The scalar tags decode a
/// fixed number of index bytes.
pub proof fn law_element_value_tags(s: Seq<u8>, pos: int, end: int)
    requires
        pos < end,
    ensures
        !is_element_value_tag(s[pos]) <==> spec_ev(s, pos, end) == Err::<int, ErrorKind>(ErrorKind::UnknownElementValueTag(s[pos])),
        is_const_tag(s[pos]) || s[pos] == 99 ==> spec_ev(s, pos, end) == take(pos + 1, 2, end),
        s[pos] == 101 ==> spec_ev(s, pos, end) == take(pos + 1, 4, end),
{
    if spec_ev(s, pos, end) == Err::<int, ErrorKind>(ErrorKind::UnknownElementValueTag(s[pos])) {
        lemma_ev_error_tag(s, pos, end, s[pos]);
    }
}

/// Access flags are accepted exactly when every set bit is one of the mask's:
/// any bit outside the mask is rejected.
pub proof fn law_flags_reject_outside_bits(bits: u16, mask: u16, k: u16)
    requires
        k < 16,
        bits & (1u16 << k) != 0,
        mask & (1u16 << k) == 0,
    ensures
        !within_mask(bits, mask),
{
    assert(bits & !mask != 0) by (bit_vector)
        requires
            k < 16,
            bits & (1u16 << k) != 0,
            mask & (1u16 << k) == 0,
    ;
}

/// Flags within the mask are accepted: `within_mask` holds exactly when the
/// mask already contains every set bit.
pub proof fn law_flags_accept_inside_bits(bits: u16, mask: u16)
    ensures
        within_mask(bits, mask) <==> (bits | mask) == mask,
{
    assert((bits & !mask == 0) <==> ((bits | mask) == mask)) by (bit_vector);
}

/// Two constants that the same bytes decode to: the same variant and fields,
/// and for a Utf8 constant the same characters.
pub open spec fn same_constant(a: Constant, b: Constant) -> bool {
    match (a, b) {
        (Constant::Utf8(x), Constant::Utf8(y)) => x.string@ == y.string@,
        (Constant::Utf8(_), _) => false,
        (_, Constant::Utf8(_)) => false,
        _ => a == b,
    }
}

/// Two pools that resolve every logical index alike.
pub open spec fn pools_agree(cs1: Seq<Constant>, cs2: Seq<Constant>) -> bool {
    forall|i: int| #![trigger pool_entry(cs1, i)] #![trigger pool_entry(cs2, i)] {
        &&& (pool_entry(cs1, i) is Some <==> pool_entry(cs2, i) is Some)
        &&& (pool_entry(cs1, i) is Some ==> same_constant(pool_entry(cs1, i)->Some_0, pool_entry(cs2, i)->Some_0))
    }
}

proof fn lemma_constant_unique(a: Constant, b: Constant, s: Seq<u8>, pos: int)
    requires
        constant_at(a, s, pos),
        constant_at(b, s, pos),
    ensures
        same_constant(a, b),
        width(a) == width(b),
{
}

pub proof fn lemma_entries_unique(cs1: Seq<Constant>, cs2: Seq<Constant>, s: Seq<u8>, pos: int, end: int, count: int, index: int)
    requires
        pool_entries_at(cs1, s, pos, end, count, index),
        pool_entries_at(cs2, s, pos, end, count, index),
    ensures
        cs1.len() == cs2.len(),
        forall|k: int| 0 <= k < cs1.len() ==> same_constant(#[trigger] cs1[k], cs2[k]) && width(cs1[k]) == width(cs2[k]),
    decreases count + 1 - index,
{
    if index < count {
        lemma_constant_unique(cs1[0], cs2[0], s, pos);
        let p = spec_constant(s, pos, end)->Ok_0;
        lemma_entries_unique(cs1.drop_first(), cs2.drop_first(), s, p, end, count, index + width(cs1[0]));
        assert forall|k: int| 0 <= k < cs1.len() implies same_constant(#[trigger] cs1[k], cs2[k]) && width(cs1[k]) == width(cs2[k]) by {
            if k > 0 {
                assert(cs1[k] == cs1.drop_first()[k - 1]);
                assert(cs2[k] == cs2.drop_first()[k - 1]);
            }
        }
    }
}

pub proof fn lemma_slots_agree(cs1: Seq<Constant>, cs2: Seq<Constant>, k: int)
    requires
        0 <= k <= cs1.len(),
        cs1.len() == cs2.len(),
        forall|j: int| 0 <= j < cs1.len() ==> width(#[trigger] cs1[j]) == width(cs2[j]),
    ensures
        slot_of(cs1, k) == slot_of(cs2, k),
    decreases k,
{
    if k > 0 {
        lemma_slots_agree(cs1, cs2, k - 1);
        assert(width(cs1[k - 1]) == width(cs2[k - 1]));
    }
}

/// Any two pools decoded from the same bytes resolve every index alike.
pub proof fn lemma_pools_agree(p1: ConstantPool, p2: ConstantPool, s: Seq<u8>, pos: int, end: int)
    requires
        pool_at(p1, s, pos, end),
        pool_at(p2, s, pos, end),
    ensures
        pools_agree(p1.constants@, p2.constants@),
{
    let cs1 = p1.constants@;
    let cs2 = p2.constants@;
    lemma_entries_unique(cs1, cs2, s, pos + 2, end, be16(s, pos), 1);
    assert forall|k: int| 0 <= k <= cs1.len() implies #[trigger] slot_of(cs1, k) == slot_of(cs2, k) by {
        lemma_slots_agree(cs1, cs2, k);
    }
    assert forall|i: int| #![trigger pool_entry(cs1, i)] #![trigger pool_entry(cs2, i)]
        (pool_entry(cs1, i) is Some <==> pool_entry(cs2, i) is Some)
        && (pool_entry(cs1, i) is Some ==> same_constant(pool_entry(cs1, i)->Some_0, pool_entry(cs2, i)->Some_0)) by {
        if pool_entry(cs1, i) is Some {
            let k1 = choose|k: int| 0 <= k < cs1.len() && #[trigger] slot_of(cs1, k) == i;
            assert(slot_of(cs2, k1) == i);
            let k2 = choose|k: int| 0 <= k < cs2.len() && #[trigger] slot_of(cs2, k) == i;
            assert(slot_of(cs1, k2) == i);
            if k1 < k2 {
                lemma_slot_strict(cs1, k1, k2);
            } else if k2 < k1 {
                lemma_slot_strict(cs1, k2, k1);
            }
            assert(same_constant(cs1[k1], cs2[k1]));
        } else if pool_entry(cs2, i) is Some {
            let k2 = choose|k: int| 0 <= k < cs2.len() && #[trigger] slot_of(cs2, k) == i;
            assert(slot_of(cs1, k2) == i);
        }
    }
}

pub proof fn lemma_attribute_agree(s: Seq<u8>, pos: int, end: int, cs1: Seq<Constant>, cs2: Seq<Constant>)
    requires
        pools_agree(cs1, cs2),
    ensures
        spec_attribute(s, pos, end, cs1) == spec_attribute(s, pos, end, cs2),
    decreases end - pos, 0int,
{
    if pos + 6 <= end {
        let ni = be16(s, pos);
        let bend = pos + 6 + be32(s, pos + 2);
        if pool_entry(cs1, ni) is Some && bend <= end {
            if let Constant::Utf8(u) = pool_entry(cs1, ni)->Some_0 {
                lemma_body_agree(attribute_kind(u.string@), s, pos + 6, bend, cs1, cs2);
            }
        }
    }
}

proof fn lemma_body_agree(kind: AttributeKind, s: Seq<u8>, pos: int, end: int, cs1: Seq<Constant>, cs2: Seq<Constant>)
    requires
        pools_agree(cs1, cs2),
    ensures
        spec_body(kind, s, pos, end, cs1) == spec_body(kind, s, pos, end, cs2),
    decreases end - pos, 1int,
{
    if kind == AttributeKind::Code && pos + 8 <= end {
        let q = pos + 8 + be32(s, pos + 4);
        if q <= end {
            if let Ok(q2) = crate::attributes::spec_table(s, q, end, 8) {
                if q2 + 2 <= end {
                    lemma_attributes_agree(s, q2 + 2, end, cs1, cs2, be16(s, q2));
                }
            }
        }
    }
}

proof fn lemma_attributes_agree(s: Seq<u8>, pos: int, end: int, cs1: Seq<Constant>, cs2: Seq<Constant>, n: int)
    requires
        pools_agree(cs1, cs2),
    ensures
        spec_attributes(s, pos, end, cs1, n) == spec_attributes(s, pos, end, cs2, n),
    decreases end - pos, n,
{
    if n > 0 {
        lemma_attribute_agree(s, pos, end, cs1, cs2);
        if let Ok(p) = spec_attribute(s, pos, end, cs1) {
            if pos < p <= end {
                lemma_attributes_agree(s, p, end, cs1, cs2, n - 1);
            }
        }
    }
}

proof fn lemma_items_agree(pos: int, n: nat, f: spec_fn(int) -> Result<int, ErrorKind>, g: spec_fn(int) -> Result<int, ErrorKind>)
    requires
        forall|q: int| #[trigger] f(q) == g(q),
    ensures
        spec_items(pos, n, f) == spec_items(pos, n, g),
    decreases n,
{
    if n > 0 {
        if let Ok(p) = f(pos) {
            lemma_items_agree(p, (n - 1) as nat, f, g);
        }
    }
}

pub proof fn lemma_members_agree(s: Seq<u8>, end: int, cs1: Seq<Constant>, cs2: Seq<Constant>, mask: u16, scope: FlagScope)
    requires
        pools_agree(cs1, cs2),
    ensures
        forall|q: int| #[trigger] spec_member(s, q, end, cs1, mask, scope) == spec_member(s, q, end, cs2, mask, scope),
{
    assert forall|q: int| #[trigger] spec_member(s, q, end, cs1, mask, scope) == spec_member(s, q, end, cs2, mask, scope) by {
        lemma_attributes_agree(s, q + 8, end, cs1, cs2, be16(s, q + 6));
    }
}

/// What follows the pool decodes alike with any two pools that resolve
/// every index alike.
pub proof fn lemma_rest_agree(s: Seq<u8>, pos: int, cs1: Seq<Constant>, cs2: Seq<Constant>)
    requires
        pools_agree(cs1, cs2),
    ensures
        spec_class_rest(s, pos, cs1) == spec_class_rest(s, pos, cs2),
        forall|q: int| #[trigger] spec_fields(s, q, s.len() as int, cs1) == spec_fields(s, q, s.len() as int, cs2),
        forall|q: int| #[trigger] spec_methods(s, q, s.len() as int, cs1) == spec_methods(s, q, s.len() as int, cs2),
{
    let end = s.len() as int;
    lemma_members_agree(s, end, cs1, cs2, FIELD_FLAGS_MASK, FlagScope::Field);
    lemma_members_agree(s, end, cs1, cs2, METHOD_FLAGS_MASK, FlagScope::Method);
    assert forall|q: int| #[trigger] field_item(s, end, cs1)(q) == field_item(s, end, cs2)(q) by {
        assert(spec_member(s, q, end, cs1, FIELD_FLAGS_MASK, FlagScope::Field) == spec_member(s, q, end, cs2, FIELD_FLAGS_MASK, FlagScope::Field));
    }
    assert forall|q: int| #[trigger] method_item(s, end, cs1)(q) == method_item(s, end, cs2)(q) by {
        assert(spec_member(s, q, end, cs1, METHOD_FLAGS_MASK, FlagScope::Method) == spec_member(s, q, end, cs2, METHOD_FLAGS_MASK, FlagScope::Method));
    }
    assert forall|q: int, n: nat| #[trigger] spec_items(q, n, field_item(s, end, cs1)) == spec_items(q, n, field_item(s, end, cs2)) by {
        lemma_items_agree(q, n, field_item(s, end, cs1), field_item(s, end, cs2));
    }
    assert forall|q: int, n: nat| #[trigger] spec_items(q, n, method_item(s, end, cs1)) == spec_items(q, n, method_item(s, end, cs2)) by {
        lemma_items_agree(q, n, method_item(s, end, cs1), method_item(s, end, cs2));
    }
    assert forall|q: int| #[trigger] spec_attribute_list(s, q, end, cs1) == spec_attribute_list(s, q, end, cs2) by {
        lemma_attributes_agree(s, q + 2, end, cs1, cs2, be16(s, q));
    }
}

/// Decoding has one outcome: bytes that decode to a class end in no error,
/// and bytes that end in an error end in only one.
pub proof fn law_single_outcome(s: Seq<u8>)
    ensures
        forall|c: Class, e: ErrorKind| !(class_at(c, s) && class_error(s, e)),
        forall|e1: ErrorKind, e2: ErrorKind| class_error(s, e1) && class_error(s, e2) ==> e1 == e2,
{
    assert forall|c: Class, e: ErrorKind| !(class_at(c, s) && class_error(s, e)) by {
        if class_at(c, s) && class_error(s, e) {
            let p = spec_class_head(s)->Ok_0;
            let pool = choose|pool: ConstantPool| #[trigger] pool_at(pool, s, 8, s.len() as int)
                && spec_class_rest(s, p, pool.constants@) == Err::<int, ErrorKind>(e);
            lemma_pools_agree(c.constant_pool, pool, s, 8, s.len() as int);
            lemma_rest_agree(s, p, c.constant_pool.constants@, pool.constants@);
        }
    }
    assert forall|e1: ErrorKind, e2: ErrorKind| class_error(s, e1) && class_error(s, e2) implies e1 == e2 by {
        if spec_class_head(s) is Ok {
            let p = spec_class_head(s)->Ok_0;
            let pool1 = choose|pool: ConstantPool| #[trigger] pool_at(pool, s, 8, s.len() as int)
                && spec_class_rest(s, p, pool.constants@) == Err::<int, ErrorKind>(e1);
            let pool2 = choose|pool: ConstantPool| #[trigger] pool_at(pool, s, 8, s.len() as int)
                && spec_class_rest(s, p, pool.constants@) == Err::<int, ErrorKind>(e2);
            lemma_pools_agree(pool1, pool2, s, 8, s.len() as int);
            lemma_rest_agree(s, p, pool1.constants@, pool2.constants@);
        }
    }
}

/// What a decoded class's header and counts are, in terms of its bytes.
pub proof fn lemma_class_summary(s: Seq<u8>, c: Class)
    requires
        class_at(c, s),
    ensures
        spec_class_head(s) is Ok,
        c.minor_version as int == be16(s, 4),
        c.major_version as int == be16(s, 6),
        ({
            let p = spec_class_head(s)->Ok_0;
            let end = s.len() as int;
            let cs = c.constant_pool.constants@;
            let q1 = p + 8 + 2 * be16(s, p + 6);
            &&& c.access_flags.bits as int == be16(s, p)
            &&& c.this_class as int == be16(s, p + 2)
            &&& c.super_class as int == be16(s, p + 4)
            &&& c.interfaces@.len() == be16(s, p + 6)
            &&& (forall|j: int| 0 <= j < c.interfaces@.len() ==> #[trigger] c.interfaces@[j].interface_index as int == be16(s, p + 8 + 2 * j))
            &&& c.fields@.len() == be16(s, q1)
            &&& match spec_fields(s, q1, end, cs) {
                Ok(q2) => c.methods@.len() == be16(s, q2) && match spec_methods(s, q2, end, cs) {
                    Ok(q3) => c.attributes@.len() == be16(s, q3),
                    Err(_) => false,
                },
                Err(_) => false,
            }
        }),
{
    let p = spec_class_head(s)->Ok_0;
    assert(class_rest_at(c, s, p));
    assert forall|j: int| 0 <= j < c.interfaces@.len() implies #[trigger] c.interfaces@[j].interface_index as int == be16(s, p + 8 + 2 * j) by {
        assert(interface_at(c.interfaces@[j], s, p + 8 + 2 * j));
    }
}

/// Two decodings of the same bytes agree: on the version, the class header
/// and the interfaces, on every pool lookup, and on the number of fields,
/// methods and attributes.
pub proof fn law_decoding_deterministic(s: Seq<u8>, c1: Class, c2: Class)
    requires
        class_at(c1, s),
        class_at(c2, s),
    ensures
        c1.minor_version == c2.minor_version,
        c1.major_version == c2.major_version,
        c1.access_flags == c2.access_flags,
        c1.this_class == c2.this_class,
        c1.super_class == c2.super_class,
        c1.interfaces@ == c2.interfaces@,
        c1.fields@.len() == c2.fields@.len(),
        c1.methods@.len() == c2.methods@.len(),
        c1.attributes@.len() == c2.attributes@.len(),
        pools_agree(c1.constant_pool.constants@, c2.constant_pool.constants@),
{
    lemma_class_summary(s, c1);
    lemma_class_summary(s, c2);
    let p = spec_class_head(s)->Ok_0;
    lemma_pools_agree(c1.constant_pool, c2.constant_pool, s, 8, s.len() as int);
    lemma_rest_agree(s, p, c1.constant_pool.constants@, c2.constant_pool.constants@);
    assert forall|j: int| 0 <= j < c1.interfaces@.len() implies c1.interfaces@[j] == c2.interfaces@[j] by {
        assert(c1.interfaces@[j].interface_index as int == be16(s, p + 8 + 2 * j));
        assert(c2.interfaces@[j].interface_index as int == be16(s, p + 8 + 2 * j));
    }
    assert(c1.interfaces@ =~= c2.interfaces@);
}

} // verus!
