//! Type shapes and the layout rules that assign each shape its alignment,
//! size, stride, offsets and paddings.

use vstd::prelude::*;

verus! {

use crate::alignment_value::{
    spec_is_power_of_two, spec_round_up, AlignmentValue, lemma_power_of_two_pos,
    lemma_round_up_properties,
};
use crate::const_str::ConstStr;
use crate::metadata::{ArrayMetadata, ExtraMetadata, Metadata, MatrixMetadata, StructMetadata};
use crate::size_value::SizeValue;

broadcast use vstd::std_specs::vec::axiom_vec_index_decreases;

/// One field of a struct shape: the field's own shape plus the optional
/// alignment and size overrides of the schema.
pub struct FieldLayout {
    pub name: ConstStr,
    pub ty: ShaderType,
    pub align_override: Option<u64>,
    pub size_override: Option<u64>,
}

/// A host-shareable type shape.
///
/// `ArrayLength` is the length-marker field: it takes no room in the host
/// value and four bytes on the wire, where it carries the element count of
/// the struct's trailing runtime-sized array.
pub enum ShaderType {
    Scalar,
    Vector { n: u64 },
    Matrix { c: u64, r: u64 },
    Array { element: Box<ShaderType>, n: u64 },
    Struct { fields: Vec<FieldLayout> },
    RuntimeArray { element: Box<ShaderType> },
    ArrayLength,
}

/// The smallest power of two no smaller than `n` (for `n >= 1`).
pub open spec fn spec_next_power_of_two(n: int) -> int
    decreases n,
{
    if n <= 1 {
        1
    } else {
        2 * spec_next_power_of_two((n + 1) / 2)
    }
}

pub proof fn lemma_next_power_of_two(n: int)
    requires
        n >= 1,
    ensures
        spec_is_power_of_two(spec_next_power_of_two(n)),
        spec_next_power_of_two(n) >= n,
        spec_next_power_of_two(n) < 2 * n,
    decreases n,
{
    if n <= 1 {
    } else {
        let m = (n + 1) / 2;
        lemma_next_power_of_two(m);
        let p = spec_next_power_of_two(m);
        if n % 2 == 1 && p == n {
            assert(n >= 3);
            assert(!spec_is_power_of_two(n));
        }
    }
}

/// Two powers of two in `[n, 2n)` coincide.
pub proof fn lemma_power_of_two_unique_in_range(p: int, q: int, n: int)
    requires
        n >= 1,
        spec_is_power_of_two(p),
        spec_is_power_of_two(q),
        n <= p < 2 * n,
        n <= q < 2 * n,
    ensures
        p == q,
{
    lemma_power_of_two_pos(p);
    lemma_power_of_two_pos(q);
    if p < q {
        crate::alignment_value::lemma_power_of_two_divides(p, q);
        vstd::arithmetic::div_mod::lemma_fundamental_div_mod(q, p);
        let k = q / p;
        assert(q == p * k);
        assert(k >= 2) by (nonlinear_arith)
            requires
                p >= 1,
                q > p,
                q == p * k,
        ;
        assert(q >= 2 * p) by (nonlinear_arith)
            requires
                p >= 1,
                k >= 2,
                q == p * k,
        ;
    } else if q < p {
        crate::alignment_value::lemma_power_of_two_divides(q, p);
        vstd::arithmetic::div_mod::lemma_fundamental_div_mod(p, q);
        let k = p / q;
        assert(p == q * k);
        assert(k >= 2) by (nonlinear_arith)
            requires
                q >= 1,
                p > q,
                p == q * k,
        ;
        assert(p >= 2 * q) by (nonlinear_arith)
            requires
                q >= 1,
                k >= 2,
                p == q * k,
        ;
    }
}

/// The alignment of a shape, in bytes.
pub open spec fn spec_alignment(t: ShaderType) -> int
    decreases t, 1int, 0int,
{
    match t {
        ShaderType::Scalar => 4,
        ShaderType::ArrayLength => 4,
        ShaderType::Vector { n } => spec_next_power_of_two(4 * n),
        ShaderType::Matrix { c: _, r } => spec_next_power_of_two(4 * r),
        ShaderType::Array { element, n: _ } => spec_alignment(*element),
        ShaderType::RuntimeArray { element } => spec_alignment(*element),
        ShaderType::Struct { fields } => spec_fields_alignment(fields, fields.len() as int),
    }
}

/// The largest alignment among the first `i` fields (1 when there are none).
pub open spec fn spec_fields_alignment(fields: Vec<FieldLayout>, i: int) -> int
    decreases fields, 0int, i,
    when 0 <= i <= fields.len()
{
    if i <= 0 {
        1
    } else {
        let rest = spec_fields_alignment(fields, i - 1);
        let a = spec_field_alignment(fields[i - 1]);
        if a > rest {
            a
        } else {
            rest
        }
    }
}

/// The alignment a field is laid out with: the field's override when the
/// schema gives one, else the alignment of the field's own shape.
pub open spec fn spec_field_alignment(f: FieldLayout) -> int
    decreases f, 1int, 0int,
{
    match f.align_override {
        Some(a) => a as int,
        None => spec_alignment(f.ty),
    }
}

/// The room a field occupies for layout purposes: the size override when the
/// schema gives one, else the minimum size of the field's own shape.
pub open spec fn spec_field_size(f: FieldLayout) -> int
    decreases f, 1int, 0int,
{
    match f.size_override {
        Some(s) => s as int,
        None => spec_min_size(f.ty),
    }
}

/// The spacing of consecutive elements of shape `t` in an array.
pub open spec fn spec_stride(t: ShaderType) -> int
    decreases t, 2int, 0int,
{
    spec_round_up(spec_min_size(t), spec_alignment(t))
}

/// The minimum size of a shape, in bytes: the size of a fixed-footprint
/// value, and the size with exactly one trailing element for runtime-sized
/// shapes.
pub open spec fn spec_min_size(t: ShaderType) -> int
    decreases t, 1int, 1int,
{
    match t {
        ShaderType::Scalar => 4,
        ShaderType::ArrayLength => 4,
        ShaderType::Vector { n } => 4 * n,
        ShaderType::Matrix { c, r } => c * spec_round_up(4 * r, spec_next_power_of_two(4 * r)),
        ShaderType::Array { element, n } => spec_round_up(
            spec_min_size(*element),
            spec_alignment(*element),
        ) * n,
        ShaderType::RuntimeArray { element } => spec_round_up(
            spec_min_size(*element),
            spec_alignment(*element),
        ),
        ShaderType::Struct { fields } => spec_struct_min_size(fields),
    }
}

/// The byte offset of field `i` of a struct: field 0 sits at 0, and each
/// later field sits just past its predecessor, rounded up to its own
/// alignment.
pub open spec fn spec_offset(fields: Vec<FieldLayout>, i: int) -> int
    decreases fields, 0int, i,
    when 0 <= i < fields.len()
{
    if i <= 0 {
        0
    } else {
        spec_round_up(
            spec_offset(fields, i - 1) + spec_field_size(fields[i - 1]),
            spec_field_alignment(fields[i]),
        )
    }
}

/// The minimum size of a struct: the end of the last field rounded up to
/// the struct's alignment.
pub open spec fn spec_struct_min_size(fields: Vec<FieldLayout>) -> int
    decreases fields, 1int, 0int,
    when fields.len() >= 1
{
    let last = fields.len() - 1;
    spec_round_up(
        spec_offset(fields, last as int) + spec_field_size(fields[last as int]),
        spec_fields_alignment(fields, fields.len() as int),
    )
}

/// The gap after field `i`: the room between the bytes the field itself
/// writes and the next field (or, for the last field, the end of the
/// struct). A runtime-sized tail has no gap of its own.
pub open spec fn spec_struct_padding(fields: Vec<FieldLayout>, i: int) -> int
    decreases fields, 2int, i,
    when 0 <= i < fields.len()
{
    if i == fields.len() - 1 {
        if fields[i].ty is RuntimeArray {
            0
        } else {
            spec_struct_min_size(fields) - spec_offset(fields, i) - spec_min_size(fields[i].ty)
        }
    } else {
        spec_offset(fields, i + 1) - spec_offset(fields, i) - spec_min_size(fields[i].ty)
    }
}

/// Whether a shape's size is independent of any value (no runtime-sized
/// array at its tail).
pub open spec fn spec_is_fixed_footprint(t: ShaderType) -> bool {
    match t {
        ShaderType::RuntimeArray { .. } => false,
        ShaderType::Struct { fields } => fields.len() == 0 || !(fields[fields.len() - 1].ty
            is RuntimeArray),
        _ => true,
    }
}

/// Whether a struct shape ends in a runtime-sized array.
pub open spec fn spec_is_runtime_struct(t: ShaderType) -> bool {
    match t {
        ShaderType::Struct { fields } => fields.len() >= 1 && fields[fields.len() - 1].ty
            is RuntimeArray,
        _ => false,
    }
}

/// How many fields of a struct are length markers.
pub open spec fn spec_array_length_count(fields: Vec<FieldLayout>, i: int) -> int
    decreases i,
{
    if i <= 0 {
        0
    } else if fields[i - 1].ty is ArrayLength {
        spec_array_length_count(fields, i - 1) + 1
    } else {
        spec_array_length_count(fields, i - 1)
    }
}

/// The marker count never goes negative.
pub proof fn lemma_array_length_count_nonneg(fields: Vec<FieldLayout>, i: int)
    ensures
        spec_array_length_count(fields, i) >= 0,
    decreases i,
{
    if i > 0 {
        lemma_array_length_count_nonneg(fields, i - 1);
    }
}

/// The marker count never shrinks as fields are added.
pub proof fn lemma_array_length_count_monotone(fields: Vec<FieldLayout>, i: int, k: int)
    requires
        i <= k,
    ensures
        spec_array_length_count(fields, i) <= spec_array_length_count(fields, k),
    decreases k - i,
{
    if i < k {
        lemma_array_length_count_monotone(fields, i, k - 1);
    }
}

/// Well-formedness of one field of a struct whose runtime-sized flag is
/// `rts`: overrides at least as strong as the field's own shape asks, a
/// runtime-sized array only as the (already checked) last field, and a
/// length marker only beside a runtime-sized tail.
pub open spec fn spec_field_wf(f: FieldLayout, rts: bool, is_last: bool) -> bool
    decreases f, 3int, 0int,
{
    &&& match f.align_override {
        Some(a) => spec_is_power_of_two(a as int) && a as int >= spec_alignment(f.ty),
        None => true,
    }
    &&& match f.ty {
        ShaderType::RuntimeArray { .. } => is_last && f.size_override is None && spec_wf(f.ty),
        ShaderType::ArrayLength => rts && f.size_override is None,
        _ => spec_wf(f.ty) && spec_is_fixed_footprint(f.ty),
    }
    &&& match f.size_override {
        Some(s) => s as int >= spec_min_size(f.ty),
        None => true,
    }
}

pub open spec fn spec_fields_wf(fields: Vec<FieldLayout>, rts: bool, i: int) -> bool
    decreases fields, 3int, i,
    when 0 <= i <= fields.len()
{
    if i <= 0 {
        true
    } else {
        spec_fields_wf(fields, rts, i - 1) && spec_field_wf(
            fields[i - 1],
            rts,
            i == fields.len(),
        )
    }
}

/// Well-formedness of a shape as a schema: the shape constraints the layout
/// rules assume, plus the demand that the computed minimum size fits `u64`.
/// A malformed schema is a schema-time error, never a runtime one.
pub open spec fn spec_wf(t: ShaderType) -> bool
    decreases t, 4int, 0int,
{
    &&& spec_min_size(t) <= u64::MAX
    &&& match t {
        ShaderType::Scalar => true,
        ShaderType::ArrayLength => false,
        ShaderType::Vector { n } => 2 <= n <= 4,
        ShaderType::Matrix { c, r } => 2 <= c <= 4 && 2 <= r <= 4,
        ShaderType::Array { element, n } => n >= 1 && spec_wf(*element) && spec_is_fixed_footprint(
            *element,
        ) && !(*element is ArrayLength),
        ShaderType::RuntimeArray { element } => spec_wf(*element) && spec_is_fixed_footprint(
            *element,
        ) && !(*element is ArrayLength),
        ShaderType::Struct { fields } => {
            &&& fields.len() >= 1
            &&& spec_fields_wf(fields, spec_is_runtime_struct(t), fields.len() as int)
            &&& spec_array_length_count(fields, fields.len() as int) <= 1
        },
    }
}

/// Whether the uniform address space puts an extra 16-byte demand on this
/// shape when it stands as a struct field (composite shapes).
pub open spec fn spec_has_uniform_min_alignment(t: ShaderType) -> bool {
    match t {
        ShaderType::Matrix { .. } => true,
        ShaderType::Array { .. } => true,
        ShaderType::Struct { .. } => true,
        ShaderType::RuntimeArray { .. } => true,
        _ => false,
    }
}

/// The uniform address space rules: every composite struct field sits at a
/// multiple of 16 bytes, every array stride is a multiple of 16 bytes, and
/// no runtime-sized array occurs anywhere.
pub open spec fn spec_is_uniform_compat(t: ShaderType) -> bool
    decreases t, 5int, 0int,
{
    match t {
        ShaderType::Scalar => true,
        ShaderType::ArrayLength => true,
        ShaderType::Vector { .. } => true,
        ShaderType::Matrix { .. } => true,
        ShaderType::Array { element, n: _ } => spec_is_uniform_compat(*element) && spec_stride(
            *element,
        ) % 16 == 0,
        ShaderType::RuntimeArray { .. } => false,
        ShaderType::Struct { fields } => spec_fields_uniform_compat(fields, fields.len() as int),
    }
}

pub open spec fn spec_fields_uniform_compat(fields: Vec<FieldLayout>, i: int) -> bool
    decreases fields, 5int, i,
    when 0 <= i <= fields.len()
{
    if i <= 0 {
        true
    } else {
        &&& spec_fields_uniform_compat(fields, i - 1)
        &&& spec_is_uniform_compat(fields[i - 1].ty)
        &&& (spec_has_uniform_min_alignment(fields[i - 1].ty) ==> spec_offset(fields, i - 1) % 16
            == 0)
    }
}

/// Whether the wire layout of this shape leaves gaps anywhere inside it.
/// When it does not, a value's bytes are one contiguous run and can move in
/// a single bulk copy.
pub open spec fn spec_has_internal_padding(t: ShaderType) -> bool
    decreases t, 6int, 0int,
{
    match t {
        ShaderType::Scalar => false,
        ShaderType::ArrayLength => false,
        ShaderType::Vector { .. } => false,
        ShaderType::Matrix { c: _, r } => spec_round_up(4 * r, spec_next_power_of_two(4 * r)) != 4
            * r,
        ShaderType::Array { element, n: _ } => spec_has_internal_padding(*element) || spec_stride(
            *element,
        ) != spec_min_size(*element),
        ShaderType::RuntimeArray { element } => spec_has_internal_padding(*element) || spec_stride(
            *element,
        ) != spec_min_size(*element),
        ShaderType::Struct { fields } => spec_fields_have_padding(fields, fields.len() as int),
    }
}

pub open spec fn spec_fields_have_padding(fields: Vec<FieldLayout>, i: int) -> bool
    decreases fields, 6int, i,
    when 0 <= i <= fields.len()
{
    if i <= 0 {
        false
    } else {
        ||| spec_fields_have_padding(fields, i - 1)
        ||| spec_has_internal_padding(fields[i - 1].ty)
        ||| spec_struct_padding(fields, i - 1) != 0
    }
}

/// Well-formedness of the whole field list gives well-formedness of each
/// field.
pub proof fn lemma_fields_wf_index(fields: Vec<FieldLayout>, rts: bool, i: int, j: int)
    requires
        0 <= j < i <= fields.len(),
        spec_fields_wf(fields, rts, i),
    ensures
        spec_field_wf(fields[j], rts, j == fields.len() - 1),
    decreases i,
{
    if j < i - 1 {
        lemma_fields_wf_index(fields, rts, i - 1, j);
    }
}

/// A well-formed shape has a power-of-two alignment.
pub proof fn lemma_wf_alignment(t: ShaderType)
    requires
        spec_wf(t),
    ensures
        spec_is_power_of_two(spec_alignment(t)),
        spec_alignment(t) >= 1,
    decreases t, 1int, 0int,
{
    reveal_with_fuel(spec_is_power_of_two, 6);
    match t {
        ShaderType::Scalar => {},
        ShaderType::ArrayLength => {},
        ShaderType::Vector { n } => {
            lemma_next_power_of_two(4 * n as int);
        },
        ShaderType::Matrix { c: _, r } => {
            lemma_next_power_of_two(4 * r as int);
        },
        ShaderType::Array { element, n: _ } => {
            lemma_wf_alignment(*element);
        },
        ShaderType::RuntimeArray { element } => {
            lemma_wf_alignment(*element);
        },
        ShaderType::Struct { fields } => {
            lemma_fields_alignment(fields, spec_is_runtime_struct(t), fields.len() as int);
        },
    }
    lemma_power_of_two_pos(spec_alignment(t));
}

/// The alignment a well-formed field is laid out with is a power of two no
/// smaller than the field shape's own alignment.
pub proof fn lemma_field_alignment(f: FieldLayout, rts: bool, is_last: bool)
    requires
        spec_field_wf(f, rts, is_last),
    ensures
        spec_is_power_of_two(spec_field_alignment(f)),
        spec_is_power_of_two(spec_alignment(f.ty)),
        spec_field_alignment(f) >= spec_alignment(f.ty),
        spec_field_alignment(f) >= 1,
    decreases f, 1int, 0int,
{
    reveal_with_fuel(spec_is_power_of_two, 6);
    match f.ty {
        ShaderType::ArrayLength => {},
        _ => {
            lemma_wf_alignment(f.ty);
        },
    }
    lemma_power_of_two_pos(spec_alignment(f.ty));
    if f.align_override is Some {
        lemma_power_of_two_pos(spec_field_alignment(f));
    }
}

/// The running maximum of field alignments is a power of two that bounds
/// every field alignment seen so far.
pub proof fn lemma_fields_alignment(fields: Vec<FieldLayout>, rts: bool, i: int)
    requires
        0 <= i <= fields.len(),
        spec_fields_wf(fields, rts, fields.len() as int),
    ensures
        spec_is_power_of_two(spec_fields_alignment(fields, i)),
        spec_fields_alignment(fields, i) >= 1,
        forall|j: int|
            0 <= j < i ==> spec_field_alignment(#[trigger] fields[j]) <= spec_fields_alignment(
                fields,
                i,
            ),
    decreases fields, 0int, i,
{
    reveal_with_fuel(spec_is_power_of_two, 6);
    if i > 0 {
        lemma_fields_alignment(fields, rts, i - 1);
        lemma_fields_wf_index(fields, rts, fields.len() as int, i - 1);
        lemma_field_alignment(fields[i - 1], rts, i - 1 == fields.len() - 1);
    }
}

/// The room a well-formed field occupies is at least the minimum size of its
/// own shape, and at least one byte.
pub proof fn lemma_field_size(f: FieldLayout, rts: bool, is_last: bool)
    requires
        spec_field_wf(f, rts, is_last),
    ensures
        spec_field_size(f) >= spec_min_size(f.ty) >= 1,
    decreases f, 2int, 0int,
{
    match f.ty {
        ShaderType::ArrayLength => {},
        _ => {
            lemma_wf_min_size(f.ty);
        },
    }
}

/// A well-formed shape needs at least one byte.
pub proof fn lemma_wf_min_size(t: ShaderType)
    requires
        spec_wf(t),
    ensures
        spec_min_size(t) >= 1,
    decreases t, 2int, 0int,
{
    match t {
        ShaderType::Scalar => {},
        ShaderType::ArrayLength => {},
        ShaderType::Vector { n: _ } => {},
        ShaderType::Matrix { c, r } => {
            lemma_next_power_of_two(4 * r as int);
            lemma_round_up_properties(4 * r as int, spec_next_power_of_two(4 * r as int));
            let col = spec_round_up(4 * r as int, spec_next_power_of_two(4 * r as int));
            assert(c * col >= col) by (nonlinear_arith)
                requires
                    c >= 1,
                    col >= 0,
            ;
        },
        ShaderType::Array { element, n } => {
            lemma_wf_alignment(*element);
            lemma_wf_min_size(*element);
            lemma_round_up_properties(spec_min_size(*element), spec_alignment(*element));
            let s = spec_stride(*element);
            assert(s * n >= s) by (nonlinear_arith)
                requires
                    n >= 1,
                    s >= 0,
            ;
        },
        ShaderType::RuntimeArray { element } => {
            lemma_wf_alignment(*element);
            lemma_wf_min_size(*element);
            lemma_round_up_properties(spec_min_size(*element), spec_alignment(*element));
        },
        ShaderType::Struct { fields } => {
            let rts = spec_is_runtime_struct(t);
            let last = fields.len() - 1;
            lemma_struct_offsets(fields, rts);
            lemma_fields_wf_index(fields, rts, fields.len() as int, last as int);
            lemma_field_size(fields[last as int], rts, true);
        },
    }
}

/// The offsets of a well-formed struct: they start at zero, never move
/// backwards, keep each field aligned, and stay inside the struct's minimum
/// size.
pub proof fn lemma_struct_offsets(fields: Vec<FieldLayout>, rts: bool)
    requires
        fields.len() >= 1,
        spec_fields_wf(fields, rts, fields.len() as int),
    ensures
        forall|i: int|
            0 <= i < fields.len() ==> 0 <= #[trigger] spec_offset(fields, i) && spec_offset(
                fields,
                i,
            ) % spec_field_alignment(fields[i]) == 0,
        forall|i: int|
            0 <= i < fields.len() - 1 ==> #[trigger] spec_offset(fields, i) + spec_field_size(
                fields[i],
            ) <= spec_offset(fields, i + 1),
        spec_offset(fields, fields.len() - 1) + spec_field_size(fields[fields.len() - 1])
            <= spec_struct_min_size(fields),
        spec_struct_min_size(fields) % spec_fields_alignment(fields, fields.len() as int) == 0,
    decreases fields, 1int, 0int,
{
    let n = fields.len() as int;
    lemma_fields_alignment(fields, rts, n);
    assert forall|i: int| 0 <= i < n implies 0 <= #[trigger] spec_offset(fields, i) && spec_offset(
        fields,
        i,
    ) % spec_field_alignment(fields[i]) == 0 by {
        lemma_offset_step(fields, rts, i);
    }
    assert forall|i: int| 0 <= i < n - 1 implies #[trigger] spec_offset(fields, i)
        + spec_field_size(fields[i]) <= spec_offset(fields, i + 1) by {
        lemma_offset_step(fields, rts, i + 1);
    }
    let last = n - 1;
    lemma_offset_step(fields, rts, last);
    lemma_fields_wf_index(fields, rts, n, last);
    lemma_field_size(fields[last], rts, true);
    lemma_round_up_properties(
        spec_offset(fields, last) + spec_field_size(fields[last]),
        spec_fields_alignment(fields, n),
    );
}

/// One step of the offset recurrence: each offset is nonnegative, aligned,
/// and past the previous field's room.
pub proof fn lemma_offset_step(fields: Vec<FieldLayout>, rts: bool, i: int)
    requires
        0 <= i < fields.len(),
        spec_fields_wf(fields, rts, fields.len() as int),
    ensures
        0 <= spec_offset(fields, i),
        spec_offset(fields, i) % spec_field_alignment(fields[i]) == 0,
        i >= 1 ==> spec_offset(fields, i - 1) + spec_field_size(fields[i - 1]) <= spec_offset(
            fields,
            i,
        ),
    decreases fields, 0int, i,
{
    let n = fields.len() as int;
    lemma_fields_wf_index(fields, rts, n, i);
    lemma_field_alignment(fields[i], rts, i == n - 1);
    let a = spec_field_alignment(fields[i]);
    if i == 0 {
        assert(0int % a == 0) by (nonlinear_arith)
            requires
                a >= 1,
        ;
    } else {
        lemma_offset_step(fields, rts, i - 1);
        lemma_fields_wf_index(fields, rts, n, i - 1);
        lemma_field_size(fields[i - 1], rts, i - 1 == n - 1);
        lemma_round_up_properties(
            spec_offset(fields, i - 1) + spec_field_size(fields[i - 1]),
            a,
        );
    }
}

/// Everything a well-formed struct lays out stays inside its minimum size,
/// so all the layout arithmetic fits in `u64` when the minimum size does.
pub proof fn lemma_struct_offsets_bounded(fields: Vec<FieldLayout>, rts: bool)
    requires
        fields.len() >= 1,
        spec_fields_wf(fields, rts, fields.len() as int),
    ensures
        forall|i: int|
            0 <= i < fields.len() ==> #[trigger] spec_offset(fields, i) + spec_field_size(
                fields[i],
            ) <= spec_struct_min_size(fields),
    decreases fields, 2int, 0int,
{
    let n = fields.len() as int;
    lemma_struct_offsets(fields, rts);
    assert forall|i: int| 0 <= i < n implies #[trigger] spec_offset(fields, i) + spec_field_size(
        fields[i],
    ) <= spec_struct_min_size(fields) by {
        lemma_offset_chain(fields, rts, i, n - 1);
    }
}

/// What `metadata` computes, field for field: the shape's alignment, sizes
/// and shape-specific extras, exactly as the layout rules give them.
pub open spec fn spec_metadata_matches(t: ShaderType, m: Metadata<ExtraMetadata>) -> bool {
    &&& m.alignment.spec_get() as int == spec_alignment(t)
    &&& m.min_size.spec_get() as int == spec_min_size(t)
    &&& m.has_uniform_min_alignment == spec_has_uniform_min_alignment(t)
    &&& m.has_internal_padding == spec_has_internal_padding(t)
    &&& match t {
        ShaderType::Array { element, n: _ } => m.extra matches ExtraMetadata::Array(am)
            && am.stride.spec_get() as int == spec_stride(*element) && am.el_padding as int
            == spec_stride(*element) - spec_min_size(*element),
        ShaderType::RuntimeArray { element } => m.extra matches ExtraMetadata::Array(am)
            && am.stride.spec_get() as int == spec_stride(*element) && am.el_padding as int
            == spec_stride(*element) - spec_min_size(*element),
        ShaderType::Matrix { c: _, r } => m.extra matches ExtraMetadata::Matrix(mm)
            && mm.col_padding as int == spec_round_up(4 * r, spec_next_power_of_two(4 * r)) - 4
            * r,
        ShaderType::Struct { fields } => m.extra matches ExtraMetadata::Struct(sm) && {
            &&& sm.offsets@.len() == fields.len()
            &&& sm.paddings@.len() == fields.len()
            &&& forall|i: int|
                0 <= i < fields.len() ==> #[trigger] sm.offsets@[i] as int == spec_offset(
                    fields,
                    i,
                )
            &&& forall|i: int|
                0 <= i < fields.len() ==> #[trigger] sm.paddings@[i] as int == spec_struct_padding(
                    fields,
                    i,
                )
        },
        _ => m.extra is Plain,
    }
}

impl ShaderType {
    /// Alignment in bytes (a power of two).
    pub fn alignment(&self) -> (r: u64)
        requires
            spec_wf(*self) || *self is ArrayLength,
        ensures
            r as int == spec_alignment(*self),
            spec_is_power_of_two(r as int),
        decreases *self, 1int, 0int,
    {
        proof {
            if !(*self is ArrayLength) {
                lemma_wf_alignment(*self);
            } else {
                reveal_with_fuel(spec_is_power_of_two, 4);
            }
        }
        match self {
            ShaderType::Scalar => 4,
            ShaderType::ArrayLength => 4,
            ShaderType::Vector { n } => {
                let a = AlignmentValue::from_next_power_of_two_size(SizeValue::new(4 * *n));
                proof {
                    lemma_next_power_of_two(4 * (*n as int));
                    lemma_power_of_two_unique_in_range(
                        a.spec_get() as int,
                        spec_next_power_of_two(4 * (*n as int)),
                        4 * (*n as int),
                    );
                }
                a.get()
            },
            ShaderType::Matrix { c: _, r } => {
                let a = AlignmentValue::from_next_power_of_two_size(SizeValue::new(4 * *r));
                proof {
                    lemma_next_power_of_two(4 * (*r as int));
                    lemma_power_of_two_unique_in_range(
                        a.spec_get() as int,
                        spec_next_power_of_two(4 * (*r as int)),
                        4 * (*r as int),
                    );
                }
                a.get()
            },
            ShaderType::Array { element, n: _ } => element.alignment(),
            ShaderType::RuntimeArray { element } => element.alignment(),
            ShaderType::Struct { fields } => {
                let layout = struct_layout(fields);
                layout.2
            },
        }
    }

    /// Minimum size in bytes: the full size of a fixed-footprint shape, and
    /// the size with exactly one trailing element for runtime-sized shapes.
    pub fn min_size(&self) -> (r: u64)
        requires
            spec_wf(*self) || *self is ArrayLength,
        ensures
            r as int == spec_min_size(*self),
            r >= 1,
        decreases *self, 1int, 1int,
    {
        proof {
            if !(*self is ArrayLength) {
                lemma_wf_min_size(*self);
            }
        }
        match self {
            ShaderType::Scalar => 4,
            ShaderType::ArrayLength => 4,
            ShaderType::Vector { n } => 4 * *n,
            ShaderType::Matrix { c, r } => {
                let col_align = AlignmentValue::from_next_power_of_two_size(SizeValue::new(4 * *r));
                proof {
                    lemma_next_power_of_two(4 * (*r as int));
                    lemma_power_of_two_unique_in_range(
                        col_align.spec_get() as int,
                        spec_next_power_of_two(4 * (*r as int)),
                        4 * (*r as int),
                    );
                    lemma_round_up_properties(4 * (*r as int), col_align.spec_get() as int);
                }
                let col_stride = col_align.round_up(4 * *r);
                *c * col_stride
            },
            ShaderType::Array { element, n } => {
                proof {
                    lemma_wf_alignment(**element);
                    lemma_wf_min_size(**element);
                    lemma_round_up_properties(spec_min_size(**element), spec_alignment(**element));
                    assert(spec_stride(**element) * (*n as int) >= spec_stride(**element))
                        by (nonlinear_arith)
                        requires
                            *n as int >= 1,
                            spec_stride(**element) >= 0,
                    ;
                }
                let stride = element_stride(element);
                stride * *n
            },
            ShaderType::RuntimeArray { element } => {
                proof {
                    assert(spec_stride(**element) == spec_min_size(*self));
                }
                element_stride(element)
            },
            ShaderType::Struct { fields } => {
                let layout = struct_layout(fields);
                layout.3
            },
        }
    }

    /// The layout metadata of this shape, computed once per type shape: a
    /// pure, repeatable function of the shape alone.
    pub fn metadata(&self) -> (r: Metadata<ExtraMetadata>)
        requires
            spec_wf(*self),
        ensures
            spec_metadata_matches(*self, r),
        decreases *self, 3int, 0int,
    {
        proof {
            lemma_wf_alignment(*self);
            lemma_wf_min_size(*self);
        }
        let alignment = AlignmentValue::new(self.alignment());
        let min_size = SizeValue::new(self.min_size());
        let has_uniform_min_alignment = match self {
            ShaderType::Matrix { .. } => true,
            ShaderType::Array { .. } => true,
            ShaderType::Struct { .. } => true,
            ShaderType::RuntimeArray { .. } => true,
            _ => false,
        };
        let has_internal_padding = self.has_internal_padding();
        let extra = match self {
            ShaderType::Array { element, n } => {
                proof {
                    lemma_wf_alignment(**element);
                    lemma_wf_min_size(**element);
                    lemma_round_up_properties(spec_min_size(**element), spec_alignment(**element));
                    assert(spec_stride(**element) * (*n as int) >= spec_stride(**element))
                        by (nonlinear_arith)
                        requires
                            *n as int >= 1,
                            spec_stride(**element) >= 0,
                    ;
                }
                let stride = element_stride(element);
                let el_size = element.min_size();
                ExtraMetadata::Array(
                    ArrayMetadata { stride: SizeValue::new(stride), el_padding: stride - el_size },
                )
            },
            ShaderType::RuntimeArray { element } => {
                proof {
                    assert(spec_stride(**element) == spec_min_size(*self));
                }
                let stride = element_stride(element);
                let el_size = element.min_size();
                ExtraMetadata::Array(
                    ArrayMetadata { stride: SizeValue::new(stride), el_padding: stride - el_size },
                )
            },
            ShaderType::Matrix { c: _, r } => {
                let col_align = AlignmentValue::from_next_power_of_two_size(SizeValue::new(4 * *r));
                proof {
                    lemma_next_power_of_two(4 * (*r as int));
                    lemma_power_of_two_unique_in_range(
                        col_align.spec_get() as int,
                        spec_next_power_of_two(4 * (*r as int)),
                        4 * (*r as int),
                    );
                    lemma_round_up_properties(4 * (*r as int), col_align.spec_get() as int);
                }
                let col_stride = col_align.round_up(4 * *r);
                ExtraMetadata::Matrix(MatrixMetadata { col_padding: col_stride - 4 * *r })
            },
            ShaderType::Struct { fields } => {
                let layout = struct_layout(fields);
                ExtraMetadata::Struct(StructMetadata { offsets: layout.0, paddings: layout.1 })
            },
            _ => ExtraMetadata::Plain,
        };
        Metadata { alignment, has_uniform_min_alignment, min_size, has_internal_padding, extra }
    }

    /// Whether the wire layout of this shape leaves gaps anywhere inside
    /// it: element padding, column padding, or a gap between or after
    /// struct fields.
    pub fn has_internal_padding(&self) -> (r: bool)
        requires
            spec_wf(*self) || *self is ArrayLength,
        ensures
            r == spec_has_internal_padding(*self),
        decreases *self, 4int, 0int,
    {
        match self {
            ShaderType::Scalar => false,
            ShaderType::ArrayLength => false,
            ShaderType::Vector { .. } => false,
            ShaderType::Matrix { c: _, r } => {
                let col_align = AlignmentValue::from_next_power_of_two_size(SizeValue::new(4 * *r));
                proof {
                    lemma_next_power_of_two(4 * (*r as int));
                    lemma_power_of_two_unique_in_range(
                        col_align.spec_get() as int,
                        spec_next_power_of_two(4 * (*r as int)),
                        4 * (*r as int),
                    );
                    lemma_round_up_properties(4 * (*r as int), col_align.spec_get() as int);
                }
                let col_stride = col_align.round_up(4 * *r);
                col_stride != 4 * *r
            },
            ShaderType::Array { element, n } => {
                proof {
                    lemma_wf_alignment(**element);
                    lemma_wf_min_size(**element);
                    lemma_round_up_properties(spec_min_size(**element), spec_alignment(**element));
                    assert(spec_stride(**element) * (*n as int) >= spec_stride(**element))
                        by (nonlinear_arith)
                        requires
                            *n as int >= 1,
                            spec_stride(**element) >= 0,
                    ;
                }
                let stride = element_stride(element);
                element.has_internal_padding() || stride != element.min_size()
            },
            ShaderType::RuntimeArray { element } => {
                proof {
                    lemma_wf_alignment(**element);
                    lemma_wf_min_size(**element);
                    lemma_round_up_properties(spec_min_size(**element), spec_alignment(**element));
                    assert(spec_stride(**element) == spec_min_size(*self));
                }
                let stride = element_stride(element);
                element.has_internal_padding() || stride != element.min_size()
            },
            ShaderType::Struct { fields } => {
                let layout = struct_layout(fields);
                fields_have_padding(fields, &layout.1)
            },
        }
    }
}

/// Whether any of a struct's fields has internal padding of its own, or a
/// nonzero gap after it.
fn fields_have_padding(fields: &Vec<FieldLayout>, paddings: &Vec<u64>) -> (r: bool)
    requires
        fields@.len() >= 1,
        spec_fields_wf(
            *fields,
            fields[fields@.len() - 1].ty is RuntimeArray,
            fields@.len() as int,
        ),
        paddings@.len() == fields@.len(),
        forall|j: int|
            0 <= j < fields@.len() ==> #[trigger] paddings@[j] as int == spec_struct_padding(
                *fields,
                j,
            ),
    ensures
        r == spec_fields_have_padding(*fields, fields@.len() as int),
    decreases *fields, 5int, 0int,
{
    let ghost rts = fields[fields@.len() - 1].ty is RuntimeArray;
    let n = fields.len();
    let mut i: usize = 0;
    while i < n
        invariant
            0 <= i <= n,
            n == fields@.len(),
            spec_fields_wf(*fields, rts, n as int),
            paddings@.len() == n,
            forall|j: int|
                0 <= j < n ==> #[trigger] paddings@[j] as int == spec_struct_padding(*fields, j),
            !spec_fields_have_padding(*fields, i as int),
        decreases n - i,
    {
        proof {
            lemma_fields_wf_index(*fields, rts, n as int, i as int);
        }
        let field_hip = match &fields[i].ty {
            ShaderType::ArrayLength => false,
            _ => fields[i].ty.has_internal_padding(),
        };
        if field_hip || paddings[i] != 0 {
            proof {
                lemma_fields_have_padding_suffix(*fields, i as int + 1, n as int);
            }
            return true;
        }
        proof {
            assert(!spec_has_internal_padding(fields@[i as int].ty));
            assert(spec_struct_padding(*fields, i as int) == 0);
            assert(!spec_fields_have_padding(*fields, i as int + 1));
        }
        i = i + 1;
    }
    false
}

/// The size of a runtime-sized shape once its trailing array is assumed to
/// hold `n` elements (at least one).
pub open spec fn spec_calculate_size_for(t: ShaderType, n: int) -> int
    decreases t, 7int, 0int,
{
    let count: int = if n >= 1 {
        n
    } else {
        1
    };
    match t {
        ShaderType::RuntimeArray { element } => spec_stride(*element) * count,
        ShaderType::Struct { fields } => {
            if fields@.len() == 0 {
                0
            } else {
                let last = fields@.len() - 1;
                spec_round_up(
                    spec_offset(fields, last) + spec_calculate_size_for(fields@[last].ty, n),
                    spec_fields_alignment(fields, fields@.len() as int),
                )
            }
        },
        _ => 0,
    }
}

impl ShaderType {
    /// The size of this runtime-sized shape once its trailing array holds
    /// `nr_of_el` elements (at least one).
    pub fn calculate_size_for(&self, nr_of_el: u64) -> (r: u64)
        requires
            spec_wf(*self),
            *self is RuntimeArray || spec_is_runtime_struct(*self),
            spec_calculate_size_for(*self, nr_of_el as int) <= u64::MAX,
        ensures
            r as int == spec_calculate_size_for(*self, nr_of_el as int),
    {
        let count: u64 = if nr_of_el >= 1 {
            nr_of_el
        } else {
            1
        };
        match self {
            ShaderType::RuntimeArray { element } => {
                proof {
                    lemma_wf_alignment(**element);
                    lemma_wf_min_size(**element);
                    lemma_round_up_properties(spec_min_size(**element), spec_alignment(**element));
                    assert(spec_stride(**element) * (count as int) >= spec_stride(**element) * 1)
                        by (nonlinear_arith)
                        requires
                            count as int >= 1,
                            spec_stride(**element) >= 0,
                    ;
                }
                element_stride(element) * count
            },
            ShaderType::Struct { fields } => {
                let ghost rts = true;
                let n = fields.len();
                let layout = struct_layout(fields);
                let tail = match &fields[n - 1].ty {
                    ShaderType::RuntimeArray { element } => {
                        proof {
                            lemma_fields_wf_index(*fields, rts, n as int, n as int - 1);
                            lemma_wf_alignment(**element);
                            lemma_wf_min_size(**element);
                            lemma_round_up_properties(
                                spec_min_size(**element),
                                spec_alignment(**element),
                            );
                            lemma_struct_offsets(*fields, rts);
                            lemma_fields_alignment(*fields, rts, n as int);
                            lemma_round_up_properties(
                                spec_offset(*fields, n as int - 1) + spec_calculate_size_for(
                                    fields@[n - 1].ty,
                                    nr_of_el as int,
                                ),
                                spec_fields_alignment(*fields, n as int),
                            );
                            assert(spec_stride(**element) * (count as int) >= spec_stride(
                                **element,
                            ) * 1) by (nonlinear_arith)
                                requires
                                    count as int >= 1,
                                    spec_stride(**element) >= 0,
                            ;
                        }
                        element_stride(element) * count
                    },
                    _ => 1,
                };
                let align = AlignmentValue::new(layout.2);
                proof {
                    lemma_fields_alignment(*fields, rts, n as int);
                    lemma_round_up_properties(
                        layout.0@[n - 1] as int + tail as int,
                        layout.2 as int,
                    );
                }
                align.round_up(layout.0[n - 1] + tail)
            },
            _ => 1,
        }
    }
}

impl ShaderType {
    /// Whether this shape's size stands on its own, with no runtime-sized
    /// array at its tail.
    pub fn is_fixed_footprint(&self) -> (r: bool)
        ensures
            r == spec_is_fixed_footprint(*self),
    {
        match self {
            ShaderType::RuntimeArray { .. } => false,
            ShaderType::Struct { fields } => {
                if fields.len() == 0 {
                    true
                } else {
                    match &fields[fields.len() - 1].ty {
                        ShaderType::RuntimeArray { .. } => false,
                        _ => true,
                    }
                }
            },
            _ => true,
        }
    }

    /// Validates a schema once, up front: the exec face of `spec_wf`, and
    /// the shape's minimum size when the schema is sound. Every schema
    /// error the layout rules name — a zero-length array, an override
    /// smaller than the natural value, a misplaced runtime-sized array or
    /// length marker, a size beyond `u64` — comes back as `None`.
    #[verifier::loop_isolation(false)]
    #[verifier::rlimit(100)]
    pub fn checked_min_size(&self) -> (r: Option<u64>)
        ensures
            r is Some <==> spec_wf(*self),
            r matches Some(m) ==> m as int == spec_min_size(*self),
        decreases *self, 10int, 0int,
    {
        match self {
            ShaderType::Scalar => Some(4),
            ShaderType::ArrayLength => None,
            ShaderType::Vector { n } => {
                if 2 <= *n && *n <= 4 {
                    Some(4 * *n)
                } else {
                    None
                }
            },
            ShaderType::Matrix { c, r } => {
                if 2 <= *c && *c <= 4 && 2 <= *r && *r <= 4 {
                    let col_align = AlignmentValue::from_next_power_of_two_size(
                        SizeValue::new(4 * *r),
                    );
                    proof {
                        lemma_next_power_of_two(4 * (*r as int));
                        lemma_power_of_two_unique_in_range(
                            col_align.spec_get() as int,
                            spec_next_power_of_two(4 * (*r as int)),
                            4 * (*r as int),
                        );
                        lemma_round_up_properties(4 * (*r as int), col_align.spec_get() as int);
                    }
                    let col_stride = col_align.round_up(4 * *r);
                    proof {
                        assert((*c as int) * col_stride <= 4 * 48) by (nonlinear_arith)
                            requires
                                *c as int <= 4,
                                0 <= col_stride < 48,
                        ;
                    }
                    Some(*c * col_stride)
                } else {
                    None
                }
            },
            ShaderType::Array { element, n } => {
                if *n < 1 {
                    return None;
                }
                let bad_element = match &**element {
                    ShaderType::ArrayLength => true,
                    _ => false,
                };
                if bad_element || !element.is_fixed_footprint() {
                    return None;
                }
                let el_min = match element.checked_min_size() {
                    Some(m) => m,
                    None => {
                        return None;
                    },
                };
                proof {
                    lemma_wf_alignment(**element);
                    lemma_power_of_two_pos(spec_alignment(**element));
                    lemma_round_up_properties(
                        spec_min_size(**element),
                        spec_alignment(**element),
                    );
                }
                let a = AlignmentValue::new(element.alignment());
                let pnf = a.padding_needed_for(el_min);
                if pnf > u64::MAX - el_min {
                    proof {
                        assert(spec_stride(**element) * (*n as int) >= spec_stride(**element))
                            by (nonlinear_arith)
                            requires
                                *n as int >= 1,
                                spec_stride(**element) >= 0,
                        ;
                    }
                    return None;
                }
                let stride = el_min + pnf;
                match stride.checked_mul(*n) {
                    Some(size) => Some(size),
                    None => {
                        proof {
                            assert(spec_min_size(*self) == spec_stride(**element) * (*n as int));
                        }
                        None
                    },
                }
            },
            ShaderType::RuntimeArray { element } => {
                let bad_element = match &**element {
                    ShaderType::ArrayLength => true,
                    _ => false,
                };
                if bad_element || !element.is_fixed_footprint() {
                    return None;
                }
                let el_min = match element.checked_min_size() {
                    Some(m) => m,
                    None => {
                        return None;
                    },
                };
                proof {
                    lemma_wf_alignment(**element);
                    lemma_power_of_two_pos(spec_alignment(**element));
                    lemma_round_up_properties(
                        spec_min_size(**element),
                        spec_alignment(**element),
                    );
                }
                let a = AlignmentValue::new(element.alignment());
                let pnf = a.padding_needed_for(el_min);
                if pnf > u64::MAX - el_min {
                    return None;
                }
                Some(el_min + pnf)
            },
            ShaderType::Struct { fields } => checked_struct_min_size(fields),
        }
    }

    /// Whether this shape is a sound schema: every layout function of the
    /// crate asks for exactly this.
    pub fn well_formed(&self) -> (r: bool)
        ensures
            r == spec_wf(*self),
    {
        self.checked_min_size().is_some()
    }
}

/// The struct half of `checked_min_size`: validates the fields, their
/// overrides and marker placement, then runs the offset arithmetic with
/// every step checked against `u64`.
#[verifier::loop_isolation(false)]
#[verifier::rlimit(100)]
fn checked_struct_min_size(fields: &Vec<FieldLayout>) -> (r: Option<u64>)
    ensures
        r is Some <==> spec_wf(ShaderType::Struct { fields: *fields }),
        r matches Some(m) ==> m as int == spec_struct_min_size(*fields),
    decreases *fields, 10int, 0int,
{
    let ghost t = ShaderType::Struct { fields: *fields };
    let n = fields.len();
    if n == 0 {
        return None;
    }
    let rts = match &fields[n - 1].ty {
        ShaderType::RuntimeArray { .. } => true,
        _ => false,
    };
    proof {
        assert(rts == spec_is_runtime_struct(t));
    }

    // each field on its own: shape, overrides, marker placement
    let mut markers: u64 = 0;
    let mut j: usize = 0;
    while j < n
        invariant
            0 <= j <= n,
            n == fields@.len(),
            rts == (fields@[n - 1].ty is RuntimeArray),
            spec_fields_wf(*fields, rts, j as int),
            markers as int == spec_array_length_count(*fields, j as int),
            markers <= j,
        decreases n - j,
    {
        let natural: u64;
        match &fields[j].ty {
            ShaderType::ArrayLength => {
                if !rts || fields[j].size_override.is_some() {
                    proof {
                        lemma_fields_wf_violation(*fields, rts, j as int, n as int);
                    }
                    return None;
                }
                if markers >= 1 {
                    proof {
                        lemma_array_length_count_monotone(*fields, j as int + 1, n as int);
                    }
                    return None;
                }
                markers = markers + 1;
                natural = 4;
            },
            ShaderType::RuntimeArray { .. } => {
                if j != n - 1 || fields[j].size_override.is_some() {
                    proof {
                        lemma_fields_wf_violation(*fields, rts, j as int, n as int);
                    }
                    return None;
                }
                match fields[j].ty.checked_min_size() {
                    Some(m) => {
                        natural = m;
                    },
                    None => {
                        proof {
                            lemma_fields_wf_violation(*fields, rts, j as int, n as int);
                        }
                        return None;
                    },
                }
            },
            _ => {
                if !fields[j].ty.is_fixed_footprint() {
                    proof {
                        lemma_fields_wf_violation(*fields, rts, j as int, n as int);
                    }
                    return None;
                }
                match fields[j].ty.checked_min_size() {
                    Some(m) => {
                        natural = m;
                    },
                    None => {
                        proof {
                            lemma_fields_wf_violation(*fields, rts, j as int, n as int);
                        }
                        return None;
                    },
                }
            },
        }
        match &fields[j].align_override {
            Some(a) => {
                proof {
                    if !(fields@[j as int].ty is ArrayLength) {
                        lemma_wf_alignment(fields@[j as int].ty);
                    } else {
                        reveal_with_fuel(spec_is_power_of_two, 4);
                    }
                }
                if !AlignmentValue::is_power_of_two(*a) || *a < fields[j].ty.alignment() {
                    proof {
                        lemma_fields_wf_violation(*fields, rts, j as int, n as int);
                    }
                    return None;
                }
            },
            None => {},
        }
        match &fields[j].size_override {
            Some(s0) => {
                if *s0 < natural {
                    proof {
                        lemma_fields_wf_violation(*fields, rts, j as int, n as int);
                    }
                    return None;
                }
            },
            None => {},
        }
        proof {
            assert(spec_field_wf(fields@[j as int], rts, j as int == n as int - 1));
        }
        j = j + 1;
    }
    if markers > 1 {
        return None;
    }

    // the offsets, with every step checked against `u64`
    proof {
        lemma_struct_offsets(*fields, rts);
    }
    proof {
        lemma_fields_wf_index(*fields, rts, n as int, 0);
    }
    let mut offset_end: u64 = match checked_field_size(&fields[0]) {
        Some(s) => s,
        None => {
            proof {
                lemma_field_size_overflow(*fields, rts, 0);
            }
            return None;
        },
    };
    let mut i: usize = 1;
    while i < n
        invariant
            1 <= i <= n,
            n == fields@.len(),
            rts == (fields@[n - 1].ty is RuntimeArray),
            spec_fields_wf(*fields, rts, n as int),
            offset_end as int == spec_offset(*fields, i as int - 1) + spec_field_size(
                fields@[i as int - 1],
            ),
        decreases n - i,
    {
        proof {
            lemma_fields_wf_index(*fields, rts, n as int, i as int);
            lemma_field_alignment(fields@[i as int], rts, i as int == n as int - 1);
            lemma_power_of_two_pos(spec_field_alignment(fields@[i as int]));
            lemma_field_size(fields@[i as int], rts, i as int == n as int - 1);
            lemma_round_up_properties(
                offset_end as int,
                spec_field_alignment(fields@[i as int]),
            );
        }
        let a = AlignmentValue::new(field_alignment(&fields[i]));
        let pnf = a.padding_needed_for(offset_end);
        if pnf > u64::MAX - offset_end {
            proof {
                lemma_offset_exceeds(*fields, rts, i as int, spec_round_up(
                    offset_end as int,
                    spec_field_alignment(fields@[i as int]),
                ));
            }
            return None;
        }
        let off = offset_end + pnf;
        let size = match checked_field_size(&fields[i]) {
            Some(s) => s,
            None => {
                proof {
                    lemma_field_size_overflow(*fields, rts, i as int);
                }
                return None;
            },
        };
        if size > u64::MAX - off {
            proof {
                lemma_offset_exceeds(*fields, rts, i as int + 1 - 1, spec_offset(
                    *fields,
                    i as int,
                ) + spec_field_size(fields@[i as int]));
            }
            return None;
        }
        offset_end = off + size;
        i = i + 1;
    }
    proof {
        lemma_fields_alignment(*fields, rts, n as int);
        lemma_power_of_two_pos(spec_fields_alignment(*fields, n as int));
    }
    let sa = AlignmentValue::new(struct_alignment_of(fields));
    let pnf = sa.padding_needed_for(offset_end);
    if pnf > u64::MAX - offset_end {
        return None;
    }
    Some(offset_end + pnf)
}

/// The laid-out room of one well-formed field, checked against `u64`.
fn checked_field_size(f: &FieldLayout) -> (r: Option<u64>)
    requires
        spec_wf(f.ty) || f.ty is ArrayLength,
    ensures
        r is Some <==> spec_field_size(*f) <= u64::MAX,
        r matches Some(m) ==> m as int == spec_field_size(*f),
    decreases *f, 10int, 0int,
{
    match &f.size_override {
        Some(s) => Some(*s),
        None => {
            proof {
                if !(f.ty is ArrayLength) {
                    crate::shader_type::lemma_wf_min_size(f.ty);
                }
            }
            Some(field_min_size_of(f))
        },
    }
}

/// The natural minimum size of a field's shape.
fn field_min_size_of(f: &FieldLayout) -> (r: u64)
    requires
        spec_wf(f.ty) || f.ty is ArrayLength,
    ensures
        r as int == spec_min_size(f.ty),
    decreases *f, 9int, 0int,
{
    f.ty.min_size()
}

/// The struct alignment of a well-formed field list.
fn struct_alignment_of(fields: &Vec<FieldLayout>) -> (r: u64)
    requires
        fields@.len() >= 1,
        spec_fields_wf(
            *fields,
            fields[fields@.len() - 1].ty is RuntimeArray,
            fields@.len() as int,
        ),
    ensures
        r as int == spec_fields_alignment(*fields, fields@.len() as int),
    decreases *fields, 10int, 0int,
{
    let ghost rts = fields[fields@.len() - 1].ty is RuntimeArray;
    let n = fields.len();
    let mut best: u64 = 1;
    let mut i: usize = 0;
    proof {
        reveal_with_fuel(spec_is_power_of_two, 2);
    }
    while i < n
        invariant
            0 <= i <= n,
            n == fields@.len(),
            spec_fields_wf(*fields, rts, n as int),
            best as int == spec_fields_alignment(*fields, i as int),
        decreases n - i,
    {
        proof {
            lemma_fields_wf_index(*fields, rts, n as int, i as int);
        }
        let a = field_alignment(&fields[i]);
        if a > best {
            best = a;
        }
        i = i + 1;
    }
    best
}

/// Field rules already broken at index `j` stay broken for the whole list.
proof fn lemma_fields_wf_violation(fields: Vec<FieldLayout>, rts: bool, j: int, n: int)
    requires
        0 <= j < n == fields@.len(),
        !spec_field_wf(fields@[j], rts, j == n - 1),
    ensures
        !spec_fields_wf(fields, rts, n),
{
    if spec_fields_wf(fields, rts, n) {
        lemma_fields_wf_index(fields, rts, n, j);
    }
}

/// A field whose laid-out room overflows `u64` sinks the whole struct.
proof fn lemma_field_size_overflow(fields: Vec<FieldLayout>, rts: bool, j: int)
    requires
        0 <= j < fields@.len(),
        rts == (fields@[fields@.len() - 1].ty is RuntimeArray),
        spec_field_size(fields@[j]) > u64::MAX,
    ensures
        spec_fields_wf(fields, rts, fields@.len() as int) ==> spec_struct_min_size(fields)
            > u64::MAX,
{
    if spec_fields_wf(fields, rts, fields@.len() as int) {
        lemma_struct_offsets(fields, rts);
        lemma_struct_offsets_bounded(fields, rts);
        lemma_offset_step(fields, rts, j);
    }
}

/// An offset value beyond `u64` sinks the whole struct.
proof fn lemma_offset_exceeds(fields: Vec<FieldLayout>, rts: bool, j: int, value: int)
    requires
        0 <= j < fields@.len(),
        rts == (fields@[fields@.len() - 1].ty is RuntimeArray),
        value > u64::MAX,
        spec_fields_wf(fields, rts, fields@.len() as int) ==> value <= spec_offset(fields, j)
            + spec_field_size(fields@[j]),
    ensures
        spec_fields_wf(fields, rts, fields@.len() as int) ==> spec_struct_min_size(fields)
            > u64::MAX,
{
    if spec_fields_wf(fields, rts, fields@.len() as int) {
        lemma_struct_offsets(fields, rts);
        lemma_struct_offsets_bounded(fields, rts);
    }
}

/// The spacing of consecutive elements of `element` in an array: the
/// element's minimum size rounded up to its alignment.
pub(crate) fn element_stride(element: &ShaderType) -> (r: u64)
    requires
        spec_wf(*element),
        spec_stride(*element) <= u64::MAX,
    ensures
        r as int == spec_stride(*element),
        r >= spec_min_size(*element) >= 1,
    decreases *element, 2int, 0int,
{
    proof {
        lemma_wf_alignment(*element);
        lemma_wf_min_size(*element);
        lemma_round_up_properties(spec_min_size(*element), spec_alignment(*element));
    }
    let a = AlignmentValue::new(element.alignment());
    a.round_up(element.min_size())
}

/// The alignment one field is laid out with.
pub(crate) fn field_alignment(f: &FieldLayout) -> (r: u64)
    requires
        spec_wf(f.ty) || f.ty is ArrayLength,
        f.align_override matches Some(a) ==> spec_is_power_of_two(a as int),
    ensures
        r as int == spec_field_alignment(*f),
        spec_is_power_of_two(r as int),
    decreases *f, 1int, 0int,
{
    match &f.align_override {
        Some(a) => *a,
        None => f.ty.alignment(),
    }
}

/// The room one field occupies for layout purposes.
pub(crate) fn field_size(f: &FieldLayout) -> (r: u64)
    requires
        spec_wf(f.ty) || f.ty is ArrayLength,
    ensures
        r as int == spec_field_size(*f),
    decreases *f, 1int, 0int,
{
    match &f.size_override {
        Some(s) => *s,
        None => f.ty.min_size(),
    }
}

/// The minimum size of one field's own shape (without any override).
pub(crate) fn field_min_size(f: &FieldLayout) -> (r: u64)
    requires
        spec_wf(f.ty) || f.ty is ArrayLength,
    ensures
        r as int == spec_min_size(f.ty),
    decreases *f, 2int, 0int,
{
    f.ty.min_size()
}

/// Lays a struct's fields out: offsets, paddings, alignment and minimum
/// size, by the WGSL struct layout rules.
pub(crate) fn struct_layout(fields: &Vec<FieldLayout>) -> (r: (Vec<u64>, Vec<u64>, u64, u64))
    requires
        fields@.len() >= 1,
        spec_fields_wf(
            *fields,
            fields[fields@.len() - 1].ty is RuntimeArray,
            fields@.len() as int,
        ),
        spec_struct_min_size(*fields) <= u64::MAX,
    ensures
        r.0@.len() == fields@.len(),
        r.1@.len() == fields@.len(),
        forall|i: int|
            0 <= i < fields@.len() ==> #[trigger] r.0@[i] as int == spec_offset(*fields, i),
        forall|i: int|
            0 <= i < fields@.len() ==> #[trigger] r.1@[i] as int == spec_struct_padding(
                *fields,
                i,
            ),
        r.2 as int == spec_fields_alignment(*fields, fields@.len() as int),
        r.3 as int == spec_struct_min_size(*fields),
    decreases *fields, 2int, 0int,
{
    let ghost rts = fields[fields@.len() - 1].ty is RuntimeArray;
    let n = fields.len();
    proof {
        lemma_struct_offsets(*fields, rts);
        lemma_struct_offsets_bounded(*fields, rts);
        lemma_fields_alignment(*fields, rts, n as int);
        lemma_fields_wf_index(*fields, rts, n as int, 0);
        lemma_field_size(fields@[0], rts, 0 == n - 1);
    }

    // struct alignment: the largest field alignment
    let mut align: u64 = 1;
    let mut i: usize = 0;
    proof {
        reveal_with_fuel(spec_is_power_of_two, 2);
    }
    while i < n
        invariant
            0 <= i <= n,
            n == fields@.len(),
            spec_fields_wf(*fields, rts, n as int),
            align as int == spec_fields_alignment(*fields, i as int),
            spec_is_power_of_two(align as int),
        decreases n - i,
    {
        proof {
            lemma_fields_wf_index(*fields, rts, n as int, i as int);
        }
        let a = field_alignment(&fields[i]);
        if a > align {
            align = a;
        }
        i = i + 1;
    }

    // field offsets
    let mut offsets: Vec<u64> = Vec::new();
    offsets.push(0);
    let mut offset_end: u64 = field_size(&fields[0]);
    let mut i: usize = 1;
    while i < n
        invariant
            1 <= i <= n,
            n == fields@.len(),
            spec_fields_wf(*fields, rts, n as int),
            spec_struct_min_size(*fields) <= u64::MAX,
            offsets@.len() == i,
            forall|j: int| 0 <= j < i ==> #[trigger] offsets@[j] as int == spec_offset(*fields, j),
            offset_end as int == spec_offset(*fields, i - 1) + spec_field_size(
                fields@[i - 1],
            ),
        decreases n - i,
    {
        proof {
            lemma_fields_wf_index(*fields, rts, n as int, i as int);
            lemma_struct_offsets(*fields, rts);
            lemma_struct_offsets_bounded(*fields, rts);
            lemma_field_alignment(fields@[i as int], rts, i as int == n - 1);
            lemma_power_of_two_pos(spec_field_alignment(fields@[i as int]));
            lemma_round_up_properties(
                offset_end as int,
                spec_field_alignment(fields@[i as int]),
            );
            assert(spec_round_up(offset_end as int, spec_field_alignment(fields@[i as int]))
                == spec_offset(*fields, i as int));
            lemma_field_size(fields@[i as int], rts, i as int == n - 1);
            assert(spec_offset(*fields, i as int) + spec_field_size(fields@[i as int])
                <= spec_struct_min_size(*fields));
        }
        let a = AlignmentValue::new(field_alignment(&fields[i]));
        let off = a.round_up(offset_end);
        offsets.push(off);
        offset_end = off + field_size(&fields[i]);
        i = i + 1;
    }

    proof {
        lemma_round_up_properties(offset_end as int, align as int);
        lemma_power_of_two_pos(align as int);
    }
    let min_size = AlignmentValue::new(align).round_up(offset_end);

    // the gap after each field
    let mut paddings: Vec<u64> = Vec::new();
    let mut i: usize = 0;
    while i < n
        invariant
            0 <= i <= n,
            n == fields@.len(),
            spec_fields_wf(*fields, rts, n as int),
            rts == (fields@[n - 1].ty is RuntimeArray),
            offsets@.len() == n,
            forall|j: int| 0 <= j < n ==> #[trigger] offsets@[j] as int == spec_offset(*fields, j),
            min_size as int == spec_struct_min_size(*fields),
            paddings@.len() == i,
            forall|j: int|
                0 <= j < i ==> #[trigger] paddings@[j] as int == spec_struct_padding(*fields, j),
        decreases n - i,
    {
        proof {
            lemma_fields_wf_index(*fields, rts, n as int, i as int);
            lemma_struct_offsets(*fields, rts);
            lemma_field_size(fields@[i as int], rts, i as int == n - 1);
        }
        let p: u64;
        if i == n - 1 {
            let is_rts = match &fields[i].ty {
                ShaderType::RuntimeArray { .. } => true,
                _ => false,
            };
            if is_rts {
                p = 0;
            } else {
                p = min_size - offsets[i] - field_min_size(&fields[i]);
            }
        } else {
            proof {
                lemma_offset_step(*fields, rts, i as int + 1);
            }
            p = offsets[i + 1] - offsets[i] - field_min_size(&fields[i]);
        }
        paddings.push(p);
        i = i + 1;
    }

    (offsets, paddings, align, min_size)
}

/// Padding found among the first fields stays found.
pub proof fn lemma_fields_have_padding_suffix(fields: Vec<FieldLayout>, i: int, j: int)
    requires
        0 <= i <= j <= fields.len(),
        spec_fields_have_padding(fields, i),
    ensures
        spec_fields_have_padding(fields, j),
    decreases j - i,
{
    if i < j {
        lemma_fields_have_padding_suffix(fields, i + 1, j);
    }
}

/// A violated prefix of the uniform rules stays violated.
pub proof fn lemma_fields_uniform_compat_prefix(fields: Vec<FieldLayout>, i: int, j: int)
    requires
        0 <= i <= j <= fields.len(),
        !spec_fields_uniform_compat(fields, i),
    ensures
        !spec_fields_uniform_compat(fields, j),
    decreases j - i,
{
    if i < j {
        lemma_fields_uniform_compat_prefix(fields, i + 1, j);
    }
}

impl ShaderType {
    /// Whether the uniform address space puts an extra 16-byte demand on
    /// this shape when it stands as a struct field.
    pub fn has_uniform_min_alignment(&self) -> (r: bool)
        ensures
            r == spec_has_uniform_min_alignment(*self),
    {
        match self {
            ShaderType::Matrix { .. } => true,
            ShaderType::Array { .. } => true,
            ShaderType::Struct { .. } => true,
            ShaderType::RuntimeArray { .. } => true,
            _ => false,
        }
    }

    /// Checks the uniform address space rules: every composite struct field
    /// at a multiple of 16 bytes, every array stride a multiple of 16 bytes,
    /// and no runtime-sized array anywhere. A violation reports the
    /// offending stride, or field name and offset.
    pub fn assert_uniform_compat(&self) -> (r: Result<(), ConstStr>)
        requires
            spec_wf(*self),
        ensures
            r is Ok <==> spec_is_uniform_compat(*self),
        decreases *self, 5int, 0int,
    {
        match self {
            ShaderType::Scalar => Ok(()),
            ShaderType::ArrayLength => Ok(()),
            ShaderType::Vector { .. } => Ok(()),
            ShaderType::Matrix { .. } => Ok(()),
            ShaderType::RuntimeArray { .. } => Err(
                ConstStr::new().str("runtime-sized array can't be used in uniform buffers"),
            ),
            ShaderType::Array { element, n } => {
                match element.assert_uniform_compat() {
                    Err(e) => Err(e),
                    Ok(()) => {
                        proof {
                            lemma_wf_alignment(**element);
                            lemma_wf_min_size(**element);
                            lemma_round_up_properties(
                                spec_min_size(**element),
                                spec_alignment(**element),
                            );
                            assert(spec_stride(**element) * (*n as int) >= spec_stride(**element))
                                by (nonlinear_arith)
                                requires
                                    *n as int >= 1,
                                    spec_stride(**element) >= 0,
                            ;
                        }
                        let stride = element_stride(element);
                        if stride % 16 == 0 {
                            Ok(())
                        } else {
                            Err(
                                ConstStr::new().str("array stride must be a multiple of 16 (current stride: ").u64(
                                    stride,
                                ).str(")"),
                            )
                        }
                    },
                }
            },
            ShaderType::Struct { fields } => {
                let layout = struct_layout(fields);
                fields_uniform_compat(fields, &layout.0)
            },
        }
    }
}

/// The struct part of the uniform rules: each field's own shape passes, and
/// composite fields sit at multiples of 16 bytes.
fn fields_uniform_compat(fields: &Vec<FieldLayout>, offsets: &Vec<u64>) -> (r: Result<
    (),
    ConstStr,
>)
    requires
        fields@.len() >= 1,
        spec_fields_wf(
            *fields,
            fields[fields@.len() - 1].ty is RuntimeArray,
            fields@.len() as int,
        ),
        offsets@.len() == fields@.len(),
        forall|j: int|
            0 <= j < fields@.len() ==> #[trigger] offsets@[j] as int == spec_offset(*fields, j),
    ensures
        r is Ok <==> spec_fields_uniform_compat(*fields, fields@.len() as int),
    decreases *fields, 5int, 0int,
{
    let ghost rts = fields[fields@.len() - 1].ty is RuntimeArray;
    let n = fields.len();
    let mut i: usize = 0;
    while i < n
        invariant
            0 <= i <= n,
            n == fields@.len(),
            spec_fields_wf(*fields, rts, n as int),
            offsets@.len() == n,
            forall|j: int| 0 <= j < n ==> #[trigger] offsets@[j] as int == spec_offset(*fields, j),
            spec_fields_uniform_compat(*fields, i as int),
        decreases n - i,
    {
        proof {
            lemma_fields_wf_index(*fields, rts, n as int, i as int);
        }
        let field_ok: Result<(), ConstStr> = match &fields[i].ty {
            ShaderType::ArrayLength => Ok(()),
            _ => fields[i].ty.assert_uniform_compat(),
        };
        match field_ok {
            Err(e) => {
                proof {
                    lemma_fields_uniform_compat_prefix(*fields, i as int + 1, n as int);
                }
                return Err(e);
            },
            Ok(()) => {},
        }
        if fields[i].ty.has_uniform_min_alignment() {
            if offsets[i] % 16 != 0 {
                proof {
                    lemma_fields_uniform_compat_prefix(*fields, i as int + 1, n as int);
                }
                return Err(
                    ConstStr::new().str("offset of field '").append(&fields[i].name).str(
                        "' must be a multiple of 16 (current offset: ",
                    ).u64(offsets[i]).str(")"),
                );
            }
        }
        proof {
            assert(spec_is_uniform_compat(fields@[i as int].ty));
            assert(spec_has_uniform_min_alignment(fields@[i as int].ty) ==> spec_offset(
                *fields,
                i as int,
            ) % 16 == 0);
            assert(spec_fields_uniform_compat(*fields, i as int + 1));
        }
        i = i + 1;
    }
    Ok(())
}

/// Computing a shape's metadata twice yields identical values: the metadata
/// is a pure, repeatable function of the type shape alone.
pub proof fn lemma_metadata_repeatable(t: ShaderType, m1: Metadata<ExtraMetadata>, m2: Metadata<
    ExtraMetadata,
>)
    requires
        spec_metadata_matches(t, m1),
        spec_metadata_matches(t, m2),
    ensures
        m1.alignment == m2.alignment,
        m1.min_size == m2.min_size,
        m1.has_uniform_min_alignment == m2.has_uniform_min_alignment,
        m1.extra matches ExtraMetadata::Array(a1) ==> (m2.extra matches ExtraMetadata::Array(a2)
            && a1.stride == a2.stride && a1.el_padding == a2.el_padding),
        m1.extra matches ExtraMetadata::Matrix(x1) ==> (m2.extra matches ExtraMetadata::Matrix(x2)
            && x1.col_padding == x2.col_padding),
        m1.extra matches ExtraMetadata::Struct(s1) ==> (m2.extra matches ExtraMetadata::Struct(s2)
            && s1.offsets@ == s2.offsets@ && s1.paddings@ == s2.paddings@),
{
    crate::alignment_value::lemma_alignment_value_eq(m1.alignment, m2.alignment);
    crate::size_value::lemma_size_value_eq(m1.min_size, m2.min_size);
    if m1.extra is Array {
        crate::size_value::lemma_size_value_eq(m1.extra->Array_0.stride, m2.extra->Array_0.stride);
    }
    if m1.extra is Struct {
        let s1 = m1.extra->Struct_0;
        let s2 = m2.extra->Struct_0;
        assert(s1.offsets@ =~= s2.offsets@);
        assert(s1.paddings@ =~= s2.paddings@);
    }
}

/// Every shape's minimum size is a whole number of its own alignments. The
/// one exception in the layout rules is the three-element vector, which is
/// 12 bytes at a 16-byte alignment.
pub proof fn lemma_min_size_is_multiple_of_alignment(t: ShaderType)
    requires
        spec_wf(t),
        match t {
            ShaderType::Vector { n } => n != 3,
            _ => true,
        },
    ensures
        spec_min_size(t) % spec_alignment(t) == 0,
{
    lemma_wf_alignment(t);
    lemma_wf_min_size(t);
    match t {
        ShaderType::Scalar => {
            assert(spec_min_size(t) == 4 && spec_alignment(t) == 4);
            assert(4int % 4int == 0);
        },
        ShaderType::ArrayLength => {
            assert(spec_min_size(t) == 4 && spec_alignment(t) == 4);
            assert(4int % 4int == 0);
        },
        ShaderType::Vector { n } => {
            reveal_with_fuel(spec_next_power_of_two, 6);
            if n == 2 {
                assert(spec_next_power_of_two(8) == 8);
                assert(8int % 8int == 0);
            } else {
                assert(spec_next_power_of_two(16) == 16);
                assert(16int % 16int == 0);
            }
        },
        ShaderType::Matrix { c, r } => {
            lemma_next_power_of_two(4 * r as int);
            let a = spec_next_power_of_two(4 * r as int);
            lemma_round_up_properties(4 * r as int, a);
            let col = spec_round_up(4 * r as int, a);
            lemma_multiple_stays_multiple(col, c as int, a);
            assert(spec_min_size(t) == c * col && spec_alignment(t) == a);
        },
        ShaderType::Array { element, n } => {
            lemma_wf_alignment(*element);
            lemma_wf_min_size(*element);
            lemma_round_up_properties(spec_min_size(*element), spec_alignment(*element));
            lemma_multiple_stays_multiple(spec_stride(*element), n as int, spec_alignment(*element));
            assert(spec_min_size(t) == n * spec_stride(*element)) by (nonlinear_arith)
                requires
                    spec_min_size(t) == spec_stride(*element) * n as int,
            ;
        },
        ShaderType::RuntimeArray { element } => {
            lemma_wf_alignment(*element);
            lemma_wf_min_size(*element);
            lemma_round_up_properties(spec_min_size(*element), spec_alignment(*element));
        },
        ShaderType::Struct { fields } => {
            let rts = spec_is_runtime_struct(t);
            lemma_struct_offsets(fields, rts);
        },
    }
}

/// A multiple of `a`, taken `c` times, stays a multiple of `a`.
pub proof fn lemma_multiple_stays_multiple(m: int, c: int, a: int)
    requires
        a >= 1,
        m >= 0,
        c >= 0,
        m % a == 0,
    ensures
        (c * m) % a == 0,
{
    vstd::arithmetic::div_mod::lemma_fundamental_div_mod(m, a);
    let k = m / a;
    assert(c * m == (c * k) * a) by (nonlinear_arith)
        requires
            m == a * k,
    ;
    vstd::arithmetic::div_mod::lemma_mod_multiples_basic(c * k, a);
}

/// The stride of an array covers a whole element and is a whole number of
/// the array's alignments.
pub proof fn lemma_array_stride(element: ShaderType)
    requires
        spec_wf(element),
    ensures
        spec_stride(element) >= spec_min_size(element),
        spec_stride(element) % spec_alignment(element) == 0,
{
    lemma_wf_alignment(element);
    lemma_wf_min_size(element);
    lemma_round_up_properties(spec_min_size(element), spec_alignment(element));
}

/// Offsets never move backwards along the field list.
pub proof fn lemma_offset_monotone(fields: Vec<FieldLayout>, rts: bool, i: int, j: int)
    requires
        0 <= i <= j < fields.len(),
        spec_fields_wf(fields, rts, fields.len() as int),
    ensures
        spec_offset(fields, i) <= spec_offset(fields, j),
    decreases j - i,
{
    if i < j {
        lemma_offset_monotone(fields, rts, i, j - 1);
        lemma_offset_step(fields, rts, j);
        lemma_fields_wf_index(fields, rts, fields.len() as int, j - 1);
        lemma_field_size(fields[j - 1], rts, j - 1 == fields.len() - 1);
    }
}

/// Struct offsets never move backwards, and every field sits at a multiple
/// of the alignment it is laid out with, which covers the alignment of the
/// field's own shape.
pub proof fn lemma_struct_offsets_sorted(fields: Vec<FieldLayout>, rts: bool)
    requires
        fields.len() >= 1,
        spec_fields_wf(fields, rts, fields.len() as int),
    ensures
        forall|i: int, j: int|
            0 <= i <= j < fields.len() ==> spec_offset(fields, i) <= spec_offset(fields, j),
        forall|i: int|
            0 <= i < fields.len() ==> #[trigger] spec_offset(fields, i) % spec_field_alignment(
                fields[i],
            ) == 0,
        forall|i: int|
            0 <= i < fields.len() ==> #[trigger] spec_offset(fields, i) % spec_alignment(
                fields[i].ty,
            ) == 0,
{
    lemma_struct_offsets(fields, rts);
    assert forall|i: int, j: int|
        0 <= i <= j < fields.len() implies spec_offset(fields, i) <= spec_offset(fields, j) by {
        lemma_offset_monotone(fields, rts, i, j);
    }
    assert forall|i: int|
        0 <= i < fields.len() implies #[trigger] spec_offset(fields, i) % spec_alignment(
        fields[i].ty,
    ) == 0 by {
        lemma_fields_wf_index(fields, rts, fields.len() as int, i);
        lemma_field_alignment(fields[i], rts, i == fields.len() - 1);
        lemma_offset_step(fields, rts, i);
        crate::alignment_value::lemma_aligned_to_coarser(
            spec_offset(fields, i),
            spec_alignment(fields[i].ty),
            spec_field_alignment(fields[i]),
        );
    }
}

/// Offsets grow along the field list.
pub proof fn lemma_offset_chain(fields: Vec<FieldLayout>, rts: bool, i: int, j: int)
    requires
        0 <= i <= j < fields.len(),
        spec_fields_wf(fields, rts, fields.len() as int),
    ensures
        spec_offset(fields, i) + spec_field_size(fields[i]) <= spec_offset(fields, j)
            + spec_field_size(fields[j]),
    decreases fields, 1int, j - i,
{
    if i < j {
        lemma_offset_chain(fields, rts, i, j - 1);
        lemma_offset_step(fields, rts, j);
        lemma_fields_wf_index(fields, rts, fields.len() as int, j);
        lemma_field_size(fields[j], rts, j == fields.len() - 1);
    }
}

} // verus!
