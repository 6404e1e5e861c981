//! The wire encoding, byte for byte: which bytes a value writes, and which
//! value a run of bytes decodes to.

use vstd::prelude::*;

verus! {

use vstd::bytes::{spec_u32_from_le_bytes, spec_u32_to_le_bytes};
use crate::alignment_value::{spec_round_up, lemma_round_up_properties};
use crate::shader_type::{
    spec_alignment, spec_is_runtime_struct, spec_min_size, spec_next_power_of_two, spec_offset,
    spec_stride, spec_struct_min_size, spec_struct_padding, spec_fields_wf, spec_wf,
    lemma_fields_wf_index, lemma_field_size, lemma_struct_offsets, lemma_wf_alignment,
    lemma_wf_min_size, FieldLayout, ShaderType,
};
use crate::shader_value::{spec_matches, ShaderValue};

broadcast use vstd::std_specs::vec::axiom_vec_index_decreases;

/// `n` positions that a value leaves untouched (padding).
pub open spec fn spec_padding_bytes(n: int) -> Seq<Option<u8>> {
    Seq::new(
        if n >= 0 {
            n as nat
        } else {
            0
        },
        |i: int| None::<u8>,
    )
}

/// The four written bytes of one scalar word, little endian.
pub open spec fn spec_word_bytes(x: u32) -> Seq<Option<u8>> {
    Seq::new(4, |i: int| Some(spec_u32_to_le_bytes(x)[i]))
}

/// The packed words of a vector or of one matrix column: four bytes each,
/// no gaps.
pub open spec fn spec_words(ws: Seq<u32>) -> Seq<Option<u8>> {
    Seq::new(4 * ws.len(), |k: int| Some(spec_u32_to_le_bytes(ws[k / 4])[k % 4]))
}

/// The bytes one value writes, relative to the value's own first byte:
/// `Some` where the value writes, `None` where it skips padding. `ctx` is
/// the element count a length marker is to carry.
pub open spec fn spec_enc(t: ShaderType, v: ShaderValue, ctx: Option<u32>) -> Seq<Option<u8>>
    decreases t, 8int, 0int,
{
    match t {
        ShaderType::Scalar => spec_word_bytes(v->Scalar_0),
        ShaderType::ArrayLength => spec_word_bytes(ctx->0),
        ShaderType::Vector { n: _ } => spec_words(v->Vector_0@),
        ShaderType::Matrix { c, r } => {
            let cols = v->Matrix_0@;
            let col_stride = spec_round_up(4 * r, spec_next_power_of_two(4 * r));
            Seq::new(
                if c * col_stride >= 0 {
                    (c * col_stride) as nat
                } else {
                    0
                },
                |k: int|
                    {
                        let w = k % col_stride;
                        if w < 4 * r {
                            Some(spec_u32_to_le_bytes(cols[k / col_stride]@[w / 4])[w % 4])
                        } else {
                            None
                        }
                    },
            )
        },
        ShaderType::Array { element, n: _ } => spec_enc_elements(
            *element,
            v->Array_0@,
            ctx,
            v->Array_0@.len() as int,
        ),
        ShaderType::RuntimeArray { element } => spec_enc_elements(
            *element,
            v->RuntimeArray_0@,
            ctx,
            v->RuntimeArray_0@.len() as int,
        ),
        ShaderType::Struct { fields } => {
            let vs = v->Struct_0@;
            let inner_ctx = if spec_is_runtime_struct(t) {
                Some(vs.last()->RuntimeArray_0@.len() as u32)
            } else {
                ctx
            };
            spec_enc_fields(fields, vs, inner_ctx, fields@.len() as int)
        },
    }
}

/// The first `i` elements of an array, each followed by its element
/// padding.
pub open spec fn spec_enc_elements(
    element: ShaderType,
    vs: Seq<ShaderValue>,
    ctx: Option<u32>,
    i: int,
) -> Seq<Option<u8>>
    decreases element, 9int, i,
{
    if i <= 0 {
        Seq::empty()
    } else {
        spec_enc_elements(element, vs, ctx, i - 1) + spec_enc(element, vs[i - 1], ctx)
            + spec_padding_bytes(spec_stride(element) - spec_min_size(element))
    }
}

/// The first `i` fields of a struct, each followed by its field padding.
pub open spec fn spec_enc_fields(
    fields: Vec<FieldLayout>,
    vs: Seq<ShaderValue>,
    ctx: Option<u32>,
    i: int,
) -> Seq<Option<u8>>
    decreases fields, 9int, i,
    when 0 <= i <= fields.len()
{
    if i <= 0 {
        Seq::empty()
    } else {
        spec_enc_fields(fields, vs, ctx, i - 1) + spec_enc(fields[i - 1].ty, vs[i - 1], ctx)
            + spec_padding_bytes(spec_struct_padding(fields, i - 1))
    }
}

/// How many bytes a value's encoding spans (written and skipped together).
pub open spec fn spec_enc_len(t: ShaderType, v: ShaderValue) -> int
    decreases t, 7int, 1int,
{
    match t {
        ShaderType::RuntimeArray { element } => spec_stride(*element) * v->RuntimeArray_0@.len(),
        ShaderType::Struct { fields } => {
            if spec_is_runtime_struct(t) {
                let last = fields@.len() - 1;
                spec_offset(fields, last) + spec_enc_len(fields@[last].ty, v->Struct_0@[last])
            } else {
                spec_min_size(t)
            }
        },
        _ => spec_min_size(t),
    }
}

/// `s` with a patch laid over it at `at`: written positions take the
/// patch's byte, skipped positions keep what was there.
pub open spec fn spec_splice(s: Seq<u8>, at: int, patch: Seq<Option<u8>>) -> Seq<u8> {
    Seq::new(
        s.len(),
        |i: int|
            if at <= i < at + patch.len() && patch[i - at] is Some {
                patch[i - at]->0
            } else {
                s[i]
            },
    )
}

/// Whether `data` shows every byte the patch writes (its padding positions
/// may hold anything).
pub open spec fn spec_covers(data: Seq<u8>, patch: Seq<Option<u8>>) -> bool {
    data.len() >= patch.len() && forall|i: int|
        0 <= i < patch.len() && patch[i] is Some ==> data[i] == (#[trigger] patch[i])->0
}

/// Splicing nothing changes nothing.
pub proof fn lemma_splice_empty(s: Seq<u8>, at: int)
    ensures
        spec_splice(s, at, Seq::empty()) == s,
{
    assert(spec_splice(s, at, Seq::empty()) =~= s);
}

/// Two patches laid down one after the other equal their concatenation.
pub proof fn lemma_splice_append(s: Seq<u8>, at: int, p1: Seq<Option<u8>>, p2: Seq<Option<u8>>)
    requires
        0 <= at,
    ensures
        spec_splice(spec_splice(s, at, p1), at + p1.len(), p2) == spec_splice(s, at, p1 + p2),
{
    let lhs = spec_splice(spec_splice(s, at, p1), at + p1.len(), p2);
    let rhs = spec_splice(s, at, p1 + p2);
    assert forall|i: int| 0 <= i < s.len() implies lhs[i] == rhs[i] by {
        if at <= i < at + p1.len() + p2.len() {
            if i < at + p1.len() {
                assert((p1 + p2)[i - at] == p1[i - at]);
            } else {
                assert((p1 + p2)[i - at] == p2[i - at - p1.len()]);
            }
        }
    }
    assert(lhs =~= rhs);
}

/// Writing four little-endian bytes is the word patch.
pub proof fn lemma_splice_word(s: Seq<u8>, at: int, x: u32)
    requires
        0 <= at,
        at + 4 <= s.len(),
    ensures
        crate::rw::spec_write_bytes(s, at, spec_u32_to_le_bytes(x)) == spec_splice(
            s,
            at,
            spec_word_bytes(x),
        ),
{
    vstd::bytes::lemma_auto_spec_u32_to_from_le_bytes();
    assert(crate::rw::spec_write_bytes(s, at, spec_u32_to_le_bytes(x)) =~= spec_splice(
        s,
        at,
        spec_word_bytes(x),
    ));
}

/// The packed words grow one word at a time.
pub proof fn lemma_words_snoc(ws: Seq<u32>, i: int)
    requires
        0 <= i < ws.len(),
    ensures
        spec_words(ws.subrange(0, i + 1)) == spec_words(ws.subrange(0, i)) + spec_word_bytes(
            ws[i],
        ),
{
    let a = spec_words(ws.subrange(0, i + 1));
    let b = spec_words(ws.subrange(0, i)) + spec_word_bytes(ws[i]);
    assert(a.len() == b.len());
    assert forall|k: int| 0 <= k < a.len() implies a[k] == b[k] by {
        if k < 4 * i {
            assert(ws.subrange(0, i + 1)[k / 4] == ws.subrange(0, i)[k / 4]);
        } else {
            assert(k / 4 == i && 0 <= k % 4 < 4) by (nonlinear_arith)
                requires
                    4 * i <= k < 4 * (i + 1),
                    i >= 0,
            ;
            assert(ws.subrange(0, i + 1)[k / 4] == ws[i]);
        }
    }
    assert(a =~= b);
}

/// A value's encoding spans exactly `spec_enc_len` bytes.
pub proof fn lemma_enc_len(t: ShaderType, v: ShaderValue, ctx: Option<u32>)
    requires
        spec_wf(t) || t is ArrayLength,
        spec_matches(t, v),
    ensures
        spec_enc(t, v, ctx).len() == spec_enc_len(t, v),
        spec_enc_len(t, v) >= 0,
    decreases t, 10int, 0int,
{
    match t {
        ShaderType::Scalar => {},
        ShaderType::ArrayLength => {},
        ShaderType::Vector { n: _ } => {},
        ShaderType::Matrix { c, r } => {
            crate::shader_type::lemma_next_power_of_two(4 * r as int);
            lemma_round_up_properties(4 * r as int, spec_next_power_of_two(4 * r as int));
            let col_stride = spec_round_up(4 * r as int, spec_next_power_of_two(4 * r as int));
            assert(c * col_stride >= 0) by (nonlinear_arith)
                requires
                    c as int >= 0,
                    col_stride >= 0,
            ;
        },
        ShaderType::Array { element, n } => {
            lemma_wf_alignment(*element);
            lemma_wf_min_size(*element);
            lemma_round_up_properties(spec_min_size(*element), spec_alignment(*element));
            lemma_enc_elements_len(*element, v->Array_0@, ctx, n as int);
            assert(spec_stride(*element) * (n as int) == spec_min_size(t)) by (nonlinear_arith)
                requires
                    spec_min_size(t) == spec_round_up(
                        spec_min_size(*element),
                        spec_alignment(*element),
                    ) * (n as int),
                    spec_stride(*element) == spec_round_up(
                        spec_min_size(*element),
                        spec_alignment(*element),
                    ),
            ;
        },
        ShaderType::RuntimeArray { element } => {
            lemma_wf_alignment(*element);
            lemma_wf_min_size(*element);
            lemma_round_up_properties(spec_min_size(*element), spec_alignment(*element));
            let vs = v->RuntimeArray_0@;
            lemma_enc_elements_len(*element, vs, ctx, vs.len() as int);
            assert(spec_stride(*element) * vs.len() >= 0) by (nonlinear_arith)
                requires
                    spec_stride(*element) >= 0,
            ;
        },
        ShaderType::Struct { fields } => {
            let vs = v->Struct_0@;
            let rts = spec_is_runtime_struct(t);
            let inner_ctx = if rts {
                Some(vs.last()->RuntimeArray_0@.len() as u32)
            } else {
                ctx
            };
            lemma_enc_fields_len(fields, vs, inner_ctx, fields@.len() as int, rts);
            lemma_wf_min_size(t);
        },
    }
}

/// The encoding of `i` array elements spans `i` strides.
pub proof fn lemma_enc_elements_len(
    element: ShaderType,
    vs: Seq<ShaderValue>,
    ctx: Option<u32>,
    i: int,
)
    requires
        spec_wf(element),
        crate::shader_type::spec_is_fixed_footprint(element),
        0 <= i <= vs.len(),
        forall|j: int| 0 <= j < vs.len() ==> spec_matches(element, #[trigger] vs[j]),
    ensures
        spec_enc_elements(element, vs, ctx, i).len() == spec_stride(element) * i,
    decreases element, 11int, i,
{
    lemma_wf_alignment(element);
    lemma_wf_min_size(element);
    lemma_round_up_properties(spec_min_size(element), spec_alignment(element));
    if i <= 0 {
        assert(spec_stride(element) * i == 0) by (nonlinear_arith)
            requires
                i == 0,
        ;
    } else {
        lemma_enc_elements_len(element, vs, ctx, i - 1);
        lemma_enc_len(element, vs[i - 1], ctx);
        crate::shader_value::lemma_size_bounds(element, vs[i - 1]);
        assert(spec_enc_len(element, vs[i - 1]) == spec_min_size(element));
        assert(spec_enc(element, vs[i - 1], ctx).len() == spec_min_size(element));
        assert(spec_padding_bytes(spec_stride(element) - spec_min_size(element)).len()
            == spec_stride(element) - spec_min_size(element));
        assert(spec_enc_elements(element, vs, ctx, i).len() == spec_enc_elements(
            element,
            vs,
            ctx,
            i - 1,
        ).len() + spec_stride(element));
        assert(spec_stride(element) * (i - 1) + spec_stride(element) == spec_stride(element) * i)
            by (nonlinear_arith)
        ;
    }
}

/// Where the encoding of the first `i` struct fields ends: at field `i`'s
/// offset while fields remain, and at the struct's full span once all
/// fields are in.
pub open spec fn spec_fields_enc_end(
    fields: Vec<FieldLayout>,
    vs: Seq<ShaderValue>,
    i: int,
    rts: bool,
) -> int {
    if i <= 0 {
        0
    } else if i < fields@.len() {
        spec_offset(fields, i)
    } else if rts {
        spec_offset(fields, i - 1) + spec_enc_len(fields@[i - 1].ty, vs[i - 1])
    } else {
        spec_struct_min_size(fields)
    }
}

/// The encoding of the first `i` struct fields spans up to
/// `spec_fields_enc_end`.
pub proof fn lemma_enc_fields_len(
    fields: Vec<FieldLayout>,
    vs: Seq<ShaderValue>,
    ctx: Option<u32>,
    i: int,
    rts: bool,
)
    requires
        fields@.len() >= 1,
        rts == (fields@[fields@.len() - 1].ty is RuntimeArray),
        spec_fields_wf(fields, rts, fields@.len() as int),
        0 <= i <= vs.len() <= fields@.len(),
        forall|j: int| 0 <= j < vs.len() ==> spec_matches((#[trigger] fields@[j]).ty, vs[j]),
    ensures
        spec_enc_fields(fields, vs, ctx, i).len() == spec_fields_enc_end(fields, vs, i, rts),
        spec_fields_enc_end(fields, vs, i, rts) >= 0,
    decreases fields, 11int, i,
{
    let n = fields@.len() as int;
    lemma_struct_offsets(fields, rts);
    if i <= 0 {
    } else {
        lemma_enc_fields_len(fields, vs, ctx, i - 1, rts);
        lemma_fields_wf_index(fields, rts, n, i - 1);
        lemma_enc_len(fields@[i - 1].ty, vs[i - 1], ctx);
        lemma_field_size(fields@[i - 1], rts, i - 1 == n - 1);
        crate::shader_type::lemma_offset_step(fields, rts, i - 1);
        if i - 1 < n - 1 {
            crate::shader_type::lemma_offset_step(fields, rts, i);
            assert(spec_enc_len(fields@[i - 1].ty, vs[i - 1]) == spec_min_size(
                fields@[i - 1].ty,
            ));
            assert(spec_struct_padding(fields, i - 1) == spec_offset(fields, i) - spec_offset(
                fields,
                i - 1,
            ) - spec_min_size(fields@[i - 1].ty));
            assert(spec_struct_padding(fields, i - 1) >= 0);
        } else {
            // the last field
            if rts {
                assert(spec_struct_padding(fields, i - 1) == 0);
                lemma_enc_len(fields@[i - 1].ty, vs[i - 1], ctx);
                let element = fields@[i - 1].ty->RuntimeArray_element;
                lemma_wf_alignment(*element);
                lemma_wf_min_size(*element);
                lemma_round_up_properties(spec_min_size(*element), spec_alignment(*element));
                assert(spec_stride(*element) * vs[i - 1]->RuntimeArray_0@.len() >= 0)
                    by (nonlinear_arith)
                    requires
                        spec_stride(*element) >= 0,
                ;
            } else {
                assert(spec_enc_len(fields@[i - 1].ty, vs[i - 1]) == spec_min_size(
                    fields@[i - 1].ty,
                ));
                assert(spec_struct_padding(fields, i - 1) == spec_struct_min_size(fields)
                    - spec_offset(fields, i - 1) - spec_min_size(fields@[i - 1].ty));
                lemma_field_size(fields@[i - 1], rts, true);
            }
        }
    }
}

/// Trailing padding in a patch writes nothing.
pub proof fn lemma_splice_drop_padding(s: Seq<u8>, at: int, p: Seq<Option<u8>>, k: int)
    ensures
        spec_splice(s, at, p + spec_padding_bytes(k)) == spec_splice(s, at, p),
{
    assert(spec_splice(s, at, p + spec_padding_bytes(k)) =~= spec_splice(s, at, p));
}

/// The matrix patch grows one padded column at a time.
pub proof fn lemma_matrix_col_snoc(t: ShaderType, v: ShaderValue, ctx: Option<u32>, j: int)
    requires
        t matches ShaderType::Matrix { c, r } && 1 <= r && 1 <= c,
        spec_matches(t, v),
        0 <= j < t->Matrix_c,
    ensures
        ({
            let r = t->Matrix_r as int;
            let cs = spec_round_up(4 * r, spec_next_power_of_two(4 * r));
            let cols = v->Matrix_0@;
            spec_enc(t, v, ctx).subrange(0, (j + 1) * cs) == spec_enc(t, v, ctx).subrange(
                0,
                j * cs,
            ) + spec_words(cols[j]@) + spec_padding_bytes(cs - 4 * r)
        }),
{
    let r = t->Matrix_r as int;
    let c = t->Matrix_c as int;
    let cs = spec_round_up(4 * r, spec_next_power_of_two(4 * r));
    let cols = v->Matrix_0@;
    crate::shader_type::lemma_next_power_of_two(4 * r);
    lemma_round_up_properties(4 * r, spec_next_power_of_two(4 * r));
    assert(cs >= 4 * r >= 4);
    let full = spec_enc(t, v, ctx);
    assert(c * cs >= (j + 1) * cs && (j + 1) * cs == j * cs + cs && j * cs >= 0)
        by (nonlinear_arith)
        requires
            0 <= j < c,
            cs >= 1,
    ;
    assert(full.len() == c * cs);
    let lhs = full.subrange(0, (j + 1) * cs);
    let rhs = full.subrange(0, j * cs) + spec_words(cols[j]@) + spec_padding_bytes(cs - 4 * r);
    assert(spec_words(cols[j]@).len() == 4 * r);
    assert(lhs.len() == rhs.len());
    assert forall|k: int| 0 <= k < lhs.len() implies lhs[k] == rhs[k] by {
        if k < j * cs {
        } else {
            let w = k - j * cs;
            assert(k / cs == j && k % cs == w) by (nonlinear_arith)
                requires
                    k == j * cs + w,
                    0 <= w < cs,
                    j >= 0,
                    cs >= 1,
            ;
            if w < 4 * r {
                assert(rhs[k] == spec_words(cols[j]@)[w]);
                assert(lhs[k] == Some(
                    vstd::bytes::spec_u32_to_le_bytes(cols[j]@[w / 4])[w % 4],
                ));
            } else {
                assert(rhs[k] == spec_padding_bytes(cs - 4 * r)[w - 4 * r]);
            }
        }
    }
    assert(lhs =~= rhs);
}

/// The span of the first fields never shrinks as fields are added.
pub proof fn lemma_fields_enc_end_monotone(
    fields: Vec<FieldLayout>,
    vs: Seq<ShaderValue>,
    ctx: Option<u32>,
    rts: bool,
    i: int,
    k: int,
)
    requires
        fields@.len() >= 1,
        rts == (fields@[fields@.len() - 1].ty is RuntimeArray),
        spec_fields_wf(fields, rts, fields@.len() as int),
        0 <= i <= k <= fields@.len(),
        vs.len() == fields@.len(),
        forall|j: int| 0 <= j < vs.len() ==> spec_matches((#[trigger] fields@[j]).ty, vs[j]),
    ensures
        spec_fields_enc_end(fields, vs, i, rts) <= spec_fields_enc_end(fields, vs, k, rts),
    decreases k - i,
{
    if i < k {
        lemma_fields_enc_end_monotone(fields, vs, ctx, rts, i + 1, k);
        lemma_enc_fields_len(fields, vs, ctx, i, rts);
        lemma_enc_fields_len(fields, vs, ctx, i + 1, rts);
        lemma_fields_wf_index(fields, rts, fields@.len() as int, i);
        lemma_enc_len(fields@[i].ty, vs[i], ctx);
    }
}

/// The index of the length-marker field among the first `i` fields, or -1.
pub open spec fn spec_array_length_index(fields: Vec<FieldLayout>, i: int) -> int
    decreases i,
{
    if i <= 0 {
        -1
    } else if spec_array_length_index(fields, i - 1) >= 0 {
        spec_array_length_index(fields, i - 1)
    } else if fields[i - 1].ty is ArrayLength {
        i - 1
    } else {
        -1
    }
}

/// What the read context holds once a value has been read: the word a
/// length marker decoded (its own, or its struct's), else whatever it held
/// before.
pub open spec fn spec_ctx_after_read(t: ShaderType, data: Seq<u8>, c: Option<u32>) -> Option<u32> {
    match t {
        ShaderType::ArrayLength => Some(spec_u32_from_le_bytes(data.subrange(0, 4))),
        ShaderType::Struct { fields } => {
            let al = spec_array_length_index(fields, fields@.len() as int);
            if al >= 0 {
                Some(
                    spec_u32_from_le_bytes(
                        data.subrange(spec_offset(fields, al), spec_offset(fields, al) + 4),
                    ),
                )
            } else {
                c
            }
        },
        _ => c,
    }
}

/// Skipping twice skips the sum.
pub proof fn lemma_skip_skip(s: Seq<u8>, a: int, b: int)
    requires
        0 <= a,
        0 <= b,
        a + b <= s.len(),
    ensures
        s.skip(a).skip(b) == s.skip(a + b),
{
    assert(s.skip(a).skip(b) =~= s.skip(a + b));
}

/// Once found, the marker index never changes.
pub proof fn lemma_array_length_index_stable(fields: Vec<FieldLayout>, i: int, k: int)
    requires
        0 <= i <= k,
        spec_array_length_index(fields, i) >= 0,
    ensures
        spec_array_length_index(fields, k) == spec_array_length_index(fields, i),
    decreases k - i,
{
    if i < k {
        lemma_array_length_index_stable(fields, i + 1, k);
    }
}

/// A field list with no length marker has no marker index.
pub proof fn lemma_array_length_index_none(fields: Vec<FieldLayout>, i: int)
    requires
        forall|j: int| 0 <= j < i ==> !((#[trigger] fields[j]).ty is ArrayLength),
    ensures
        spec_array_length_index(fields, i) == -1,
    decreases i,
{
    if i > 0 {
        lemma_array_length_index_none(fields, i - 1);
    }
}

/// The marker index names a marker field.
pub proof fn lemma_array_length_index_is_marker(fields: Vec<FieldLayout>, i: int)
    requires
        spec_array_length_index(fields, i) >= 0,
    ensures
        spec_array_length_index(fields, i) < i,
        fields[spec_array_length_index(fields, i)].ty is ArrayLength,
    decreases i,
{
    if i > 0 && spec_array_length_index(fields, i - 1) >= 0 {
        lemma_array_length_index_is_marker(fields, i - 1);
    }
}

/// The element cap a struct's own bytes impose on its runtime-sized tail:
/// the word under its length-marker field, or the incoming cap when it has
/// no marker.
pub open spec fn spec_struct_dcap(fields: Vec<FieldLayout>, data: Seq<u8>, c: Option<u32>) -> Option<
    u32,
> {
    let al = spec_array_length_index(fields, fields@.len() as int);
    if al >= 0 {
        Some(
            spec_u32_from_le_bytes(
                data.subrange(spec_offset(fields, al), spec_offset(fields, al) + 4),
            ),
        )
    } else {
        c
    }
}

/// Whether `v` is what the bytes of `data` decode to under shape `t`.
/// `data` starts at the value's own first byte and runs to the end of the
/// readable region; `cap` is the element cap a previously decoded length
/// marker imposed.
pub open spec fn spec_decodes(t: ShaderType, data: Seq<u8>, cap: Option<u32>, v: ShaderValue) -> bool
    decreases t, 8int, 0int,
{
    match t {
        ShaderType::Scalar => v matches ShaderValue::Scalar(x) && x == spec_u32_from_le_bytes(
            data.subrange(0, 4),
        ),
        ShaderType::ArrayLength => v is ArrayLength,
        ShaderType::Vector { n } => v matches ShaderValue::Vector(els) && els@.len() == n
            && forall|k: int|
            0 <= k < els@.len() ==> #[trigger] els@[k] == spec_u32_from_le_bytes(
                data.subrange(4 * k, 4 * k + 4),
            ),
        ShaderType::Matrix { c, r } => {
            let col_stride = spec_round_up(4 * r, spec_next_power_of_two(4 * r));
            &&& v matches ShaderValue::Matrix(cols)
            &&& cols@.len() == c
            &&& forall|j: int| 0 <= j < cols@.len() ==> (#[trigger] cols@[j])@.len() == r
            &&& forall|j: int, k: int|
                0 <= j < cols@.len() && 0 <= k < r ==> #[trigger] cols@[j]@[k]
                    == spec_u32_from_le_bytes(
                    data.subrange(j * col_stride + 4 * k, j * col_stride + 4 * k + 4),
                )
        },
        ShaderType::Array { element, n } => v matches ShaderValue::Array(vs) && vs@.len() == n
            && forall|j: int|
            0 <= j < vs@.len() ==> spec_decodes(
                *element,
                data.skip(j * spec_stride(*element)),
                cap,
                #[trigger] vs@[j],
            ),
        ShaderType::RuntimeArray { element } => {
            let capn: int = match cap {
                Some(c) => c as int,
                None => u32::MAX as int,
            };
            let stride = spec_stride(*element);
            let count = if capn <= data.len() as int / stride {
                capn
            } else {
                data.len() as int / stride
            };
            v matches ShaderValue::RuntimeArray(vs) && vs@.len() == count && forall|j: int|
                0 <= j < vs@.len() ==> spec_decodes(
                    *element,
                    data.skip(j * stride),
                    cap,
                    #[trigger] vs@[j],
                )
        },
        ShaderType::Struct { fields } => {
            let al = spec_array_length_index(fields, fields@.len() as int);
            let dcap = if al >= 0 {
                Some(spec_u32_from_le_bytes(data.subrange(spec_offset(fields, al), spec_offset(fields, al) + 4)))
            } else {
                cap
            };
            v matches ShaderValue::Struct(vs) && vs@.len() == fields@.len() && forall|j: int|
                0 <= j < vs@.len() ==> spec_decodes(
                    (#[trigger] fields@[j]).ty,
                    data.skip(spec_offset(fields, j)),
                    dcap,
                    vs@[j],
                )
        },
    }
}

/// Reading a fixed-footprint value leaves the read context alone.
pub proof fn lemma_ctx_after_read_fixed(t: ShaderType, data: Seq<u8>, c: Option<u32>)
    requires
        spec_wf(t),
        crate::shader_type::spec_is_fixed_footprint(t),
    ensures
        spec_ctx_after_read(t, data, c) == c,
{
    match t {
        ShaderType::Struct { fields } => {
            let n = fields@.len() as int;
            assert forall|j: int| 0 <= j < n implies !((#[trigger] fields[j]).ty
                is ArrayLength) by {
                lemma_fields_wf_index(fields, false, n, j);
            }
            lemma_array_length_index_none(fields, n);
        },
        _ => {},
    }
}

/// Fixed-footprint shapes decode the same value under any element cap: the
/// cap only ever matters to a runtime-sized tail.
pub proof fn lemma_decodes_cap_insensitive(
    t: ShaderType,
    data: Seq<u8>,
    c1: Option<u32>,
    c2: Option<u32>,
    v: ShaderValue,
)
    requires
        spec_wf(t),
        crate::shader_type::spec_is_fixed_footprint(t),
        spec_decodes(t, data, c1, v),
    ensures
        spec_decodes(t, data, c2, v),
    decreases t, 9int, 0int,
{
    match t {
        ShaderType::Array { element, n: _ } => {
            let vs = v->Array_0;
            assert forall|j: int| 0 <= j < vs@.len() implies spec_decodes(
                *element,
                data.skip(j * spec_stride(*element)),
                c2,
                #[trigger] vs@[j],
            ) by {
                lemma_decodes_cap_insensitive(
                    *element,
                    data.skip(j * spec_stride(*element)),
                    c1,
                    c2,
                    vs@[j],
                );
            }
        },
        ShaderType::Struct { fields } => {
            let n = fields@.len() as int;
            assert forall|j: int| 0 <= j < n implies !((#[trigger] fields[j]).ty
                is ArrayLength) by {
                lemma_fields_wf_index(fields, false, n, j);
            }
            lemma_array_length_index_none(fields, n);
            let vs = v->Struct_0;
            assert forall|j: int| 0 <= j < vs@.len() implies spec_decodes(
                (#[trigger] fields@[j]).ty,
                data.skip(spec_offset(fields, j)),
                c2,
                vs@[j],
            ) by {
                lemma_fields_wf_index(fields, false, n, j);
                if fields@[j].ty is ArrayLength {
                } else {
                    lemma_decodes_cap_insensitive(
                        fields@[j].ty,
                        data.skip(spec_offset(fields, j)),
                        c1,
                        c2,
                        vs@[j],
                    );
                }
            }
        },
        _ => {},
    }
}

} // verus!
