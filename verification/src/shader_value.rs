//! Host values of the supported type shapes, with scalars carried as their
//! four-byte little-endian bit patterns.

use vstd::prelude::*;

verus! {

use crate::alignment_value::{spec_round_up, lemma_round_up_properties};
use crate::shader_type::{
    spec_alignment, spec_field_size, spec_fields_alignment, spec_is_runtime_struct, spec_min_size,
    spec_offset, spec_stride, spec_wf, lemma_struct_offsets, lemma_fields_wf_index,
    lemma_field_size, lemma_wf_alignment, lemma_wf_min_size, ShaderType, element_stride,
    struct_layout,
};
use crate::alignment_value::AlignmentValue;

broadcast use vstd::std_specs::vec::axiom_vec_index_decreases;

/// The length-marker value: zero-sized on the host, four bytes on the
/// wire, where it carries the element count of its struct's trailing
/// runtime-sized array.
#[derive(Clone, Copy, Debug, Default, PartialEq, Eq, PartialOrd, Ord, Structural)]
pub struct ArrayLength;

impl ArrayLength {
    /// The marker as a host value.
    pub fn value(self) -> (r: ShaderValue)
        ensures
            r is ArrayLength,
    {
        ShaderValue::ArrayLength
    }
}

/// A host value: every scalar is its four-byte bit pattern, a matrix is its
/// columns, a struct is its fields in declaration order, and `ArrayLength`
/// is the zero-sized length marker.
#[derive(Debug, PartialEq)]
pub enum ShaderValue {
    Scalar(u32),
    Vector(Vec<u32>),
    Matrix(Vec<Vec<u32>>),
    Array(Vec<ShaderValue>),
    Struct(Vec<ShaderValue>),
    RuntimeArray(Vec<ShaderValue>),
    ArrayLength,
}

/// Value congruence: two values that agree scalar for scalar, element for
/// element and field for field. This is equality of everything a value
/// shows; the containers holding the elements may still differ in hidden
/// detail such as their spare capacity.
pub open spec fn spec_value_eq(v1: ShaderValue, v2: ShaderValue) -> bool
    decreases v1, 0int, 0int,
{
    match (v1, v2) {
        (ShaderValue::Scalar(x1), ShaderValue::Scalar(x2)) => x1 == x2,
        (ShaderValue::ArrayLength, ShaderValue::ArrayLength) => true,
        (ShaderValue::Vector(e1), ShaderValue::Vector(e2)) => e1@ == e2@,
        (ShaderValue::Matrix(c1), ShaderValue::Matrix(c2)) => c1@.len() == c2@.len()
            && forall|j: int| 0 <= j < c1@.len() ==> (#[trigger] c1@[j])@ == c2@[j]@,
        (ShaderValue::Array(e1), ShaderValue::Array(e2)) => e1@.len() == e2@.len() && forall|
            j: int,
        |
            0 <= j < e1@.len() ==> spec_value_eq(#[trigger] e1@[j], e2@[j]),
        (ShaderValue::Struct(e1), ShaderValue::Struct(e2)) => e1@.len() == e2@.len() && forall|
            j: int,
        |
            0 <= j < e1@.len() ==> spec_value_eq(#[trigger] e1@[j], e2@[j]),
        (ShaderValue::RuntimeArray(e1), ShaderValue::RuntimeArray(e2)) => e1@.len() == e2@.len()
            && forall|j: int| 0 <= j < e1@.len() ==> spec_value_eq(#[trigger] e1@[j], e2@[j]),
        _ => false,
    }
}

/// Whether a value has the given shape.
pub open spec fn spec_matches(t: ShaderType, v: ShaderValue) -> bool
    decreases t, 0int, 0int,
{
    match t {
        ShaderType::Scalar => v is Scalar,
        ShaderType::ArrayLength => v is ArrayLength,
        ShaderType::Vector { n } => v matches ShaderValue::Vector(els) && els@.len() == n,
        ShaderType::Matrix { c, r } => v matches ShaderValue::Matrix(cols) && cols@.len() == c
            && forall|j: int| 0 <= j < cols@.len() ==> (#[trigger] cols@[j])@.len() == r,
        ShaderType::Array { element, n } => v matches ShaderValue::Array(vs) && vs@.len() == n
            && forall|j: int|
            0 <= j < vs@.len() ==> spec_matches(*element, #[trigger] vs@[j]),
        ShaderType::Struct { fields } => v matches ShaderValue::Struct(vs) && vs@.len()
            == fields@.len() && forall|j: int|
            0 <= j < vs@.len() ==> spec_matches(#[trigger] fields@[j].ty, vs@[j]),
        ShaderType::RuntimeArray { element } => v matches ShaderValue::RuntimeArray(vs)
            && vs@.len() <= u32::MAX && forall|j: int|
            0 <= j < vs@.len() ==> spec_matches(*element, #[trigger] vs@[j]),
    }
}

/// The size a value occupies on the wire: the shape's minimum size, except
/// that a runtime-sized tail is counted at its real element count (at least
/// one).
pub open spec fn spec_size(t: ShaderType, v: ShaderValue) -> int
    decreases t, 7int, 0int,
{
    match t {
        ShaderType::RuntimeArray { element } => {
            let len = v->RuntimeArray_0@.len() as int;
            spec_stride(*element) * (if len >= 1 {
                len
            } else {
                1
            })
        },
        ShaderType::Struct { fields } => {
            if spec_is_runtime_struct(t) {
                let last = fields@.len() - 1;
                spec_round_up(
                    spec_offset(fields, last) + spec_size(fields@[last].ty, v->Struct_0@[last]),
                    spec_fields_alignment(fields, fields@.len() as int),
                )
            } else {
                spec_min_size(t)
            }
        },
        _ => spec_min_size(t),
    }
}

/// A value never takes less room than the shape's minimum size, and a
/// fixed-footprint value takes exactly that.
pub proof fn lemma_size_bounds(t: ShaderType, v: ShaderValue)
    requires
        spec_wf(t),
        spec_matches(t, v),
    ensures
        spec_size(t, v) >= spec_min_size(t),
        crate::shader_type::spec_is_fixed_footprint(t) ==> spec_size(t, v) == spec_min_size(t),
    decreases t, 8int, 0int,
{
    lemma_wf_min_size(t);
    match t {
        ShaderType::RuntimeArray { element } => {
            let len = v->RuntimeArray_0@.len() as int;
            let s = spec_stride(*element);
            lemma_wf_alignment(*element);
            lemma_wf_min_size(*element);
            lemma_round_up_properties(spec_min_size(*element), spec_alignment(*element));
            if len >= 1 {
                assert(s * len >= s * 1) by (nonlinear_arith)
                    requires
                        s >= 0,
                        len >= 1,
                ;
            }
        },
        ShaderType::Struct { fields } => {
            if spec_is_runtime_struct(t) {
                let rts = true;
                let last = fields@.len() - 1;
                let vs = v->Struct_0;
                lemma_struct_offsets(fields, rts);
                crate::shader_type::lemma_fields_alignment(fields, rts, fields@.len() as int);
                lemma_fields_wf_index(fields, rts, fields@.len() as int, last);
                lemma_field_size(fields@[last], rts, true);
                lemma_size_bounds(fields@[last].ty, vs@[last]);
                crate::alignment_value::lemma_round_up_monotone(
                    spec_offset(fields, last) + spec_field_size(fields@[last]),
                    spec_offset(fields, last) + spec_size(fields@[last].ty, vs@[last]),
                    spec_fields_alignment(fields, fields@.len() as int),
                );
            }
        },
        _ => {},
    }
}

impl ShaderValue {
    /// Whether this value has the given shape.
    #[verifier::loop_isolation(false)]
    pub fn matches_type(&self, t: &ShaderType) -> (r: bool)
        ensures
            r == spec_matches(*t, *self),
        decreases *self, 0int, 0int,
    {
        match (t, self) {
            (ShaderType::Scalar, ShaderValue::Scalar(_)) => true,
            (ShaderType::ArrayLength, ShaderValue::ArrayLength) => true,
            (ShaderType::Vector { n }, ShaderValue::Vector(els)) => els.len() as u64 == *n,
            (ShaderType::Matrix { c, r }, ShaderValue::Matrix(cols)) => {
                if cols.len() as u64 != *c {
                    return false;
                }
                let mut j: usize = 0;
                while j < cols.len()
                    invariant
                        0 <= j <= cols@.len(),
                        forall|k: int| 0 <= k < j ==> (#[trigger] cols@[k])@.len() == *r,
                    decreases cols@.len() - j,
                {
                    if cols[j].len() as u64 != *r {
                        proof {
                            assert(cols@[j as int]@.len() != *r);
                        }
                        return false;
                    }
                    j = j + 1;
                }
                true
            },
            (ShaderType::Array { element, n }, ShaderValue::Array(vs)) => {
                if vs.len() as u64 != *n {
                    return false;
                }
                let mut j: usize = 0;
                while j < vs.len()
                    invariant
                        0 <= j <= vs@.len(),
                        forall|k: int| 0 <= k < j ==> spec_matches(**element, #[trigger] vs@[k]),
                    decreases vs@.len() - j,
                {
                    if !vs[j].matches_type(element) {
                        proof {
                            assert(!spec_matches(**element, vs@[j as int]));
                        }
                        return false;
                    }
                    j = j + 1;
                }
                true
            },
            (ShaderType::Struct { fields }, ShaderValue::Struct(vs)) => {
                if vs.len() != fields.len() {
                    return false;
                }
                let mut j: usize = 0;
                while j < vs.len()
                    invariant
                        0 <= j <= vs@.len(),
                        vs@.len() == fields@.len(),
                        forall|k: int|
                            0 <= k < j ==> spec_matches(#[trigger] fields@[k].ty, vs@[k]),
                    decreases vs@.len() - j,
                {
                    if !vs[j].matches_type(&fields[j].ty) {
                        proof {
                            assert(!spec_matches(fields@[j as int].ty, vs@[j as int]));
                        }
                        return false;
                    }
                    j = j + 1;
                }
                true
            },
            (ShaderType::RuntimeArray { element }, ShaderValue::RuntimeArray(vs)) => {
                if vs.len() as u64 > 0xffff_ffffu64 {
                    return false;
                }
                let mut j: usize = 0;
                while j < vs.len()
                    invariant
                        0 <= j <= vs@.len(),
                        forall|k: int| 0 <= k < j ==> spec_matches(**element, #[trigger] vs@[k]),
                    decreases vs@.len() - j,
                {
                    if !vs[j].matches_type(element) {
                        proof {
                            assert(!spec_matches(**element, vs@[j as int]));
                        }
                        return false;
                    }
                    j = j + 1;
                }
                true
            },
            _ => false,
        }
    }
}

impl ShaderType {
    /// The size a value of this shape occupies on the wire.
    pub fn size(&self, value: &ShaderValue) -> (r: u64)
        requires
            spec_wf(*self),
            spec_matches(*self, *value),
            spec_size(*self, *value) <= u64::MAX,
        ensures
            r as int == spec_size(*self, *value),
            r >= 1,
        decreases *self, 9int, 0int,
    {
        proof {
            lemma_size_bounds(*self, *value);
            lemma_wf_min_size(*self);
        }
        match (self, value) {
            (ShaderType::RuntimeArray { element }, ShaderValue::RuntimeArray(vs)) => {
                let stride = element_stride(element);
                let len = vs.len();
                if len == 0 {
                    stride
                } else {
                    proof {
                        assert(spec_stride(**element) * (len as int) <= spec_size(
                            *self,
                            *value,
                        ));
                    }
                    stride * (len as u64)
                }
            },
            (ShaderType::Struct { fields }, ShaderValue::Struct(vs)) => {
                let n = fields.len();
                let is_rts = match &fields[n - 1].ty {
                    ShaderType::RuntimeArray { .. } => true,
                    _ => false,
                };
                if !is_rts {
                    self.min_size()
                } else {
                    let ghost rts = true;
                    let layout = struct_layout(fields);
                    let last_offset = layout.0[n - 1];
                    proof {
                        lemma_struct_offsets(*fields, rts);
                        lemma_fields_wf_index(*fields, rts, n as int, n as int - 1);
                        lemma_field_size(fields@[n - 1], rts, true);
                        lemma_size_bounds(fields@[n - 1].ty, vs@[n - 1]);
                        crate::shader_type::lemma_fields_alignment(*fields, rts, n as int);
                        lemma_round_up_properties(
                            spec_offset(*fields, n as int - 1) + spec_size(
                                fields@[n - 1].ty,
                                vs@[n - 1],
                            ),
                            spec_fields_alignment(*fields, n as int),
                        );
                    }
                    let tail_size = fields[n - 1].ty.size(&vs[n - 1]);
                    let align = AlignmentValue::new(layout.2);
                    align.round_up(last_offset + tail_size)
                }
            },
            _ => self.min_size(),
        }
    }
}

} // verus!
