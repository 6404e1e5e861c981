//! The laws the encoding obeys, chief among them the round trip: the bytes
//! a write lays down decode back to the very value that was written.

use vstd::prelude::*;

verus! {

use vstd::bytes::{spec_u32_from_le_bytes, spec_u32_to_le_bytes};
use crate::alignment_value::{spec_round_up, lemma_round_up_properties};
use crate::encoding::{
    spec_array_length_index, spec_covers, spec_decodes, spec_enc, spec_enc_elements,
    spec_enc_fields, spec_enc_len, spec_fields_enc_end, spec_struct_dcap, spec_word_bytes,
    spec_words, lemma_enc_elements_len, lemma_enc_fields_len, lemma_enc_len,
};
use crate::shader_type::{
    spec_alignment, spec_fields_wf, spec_is_fixed_footprint, spec_is_runtime_struct,
    spec_min_size, spec_next_power_of_two, spec_offset, spec_stride, spec_wf,
    lemma_fields_wf_index, lemma_field_size, lemma_struct_offsets, lemma_wf_alignment,
    lemma_wf_min_size, FieldLayout, ShaderType,
};
use crate::shader_value::{spec_matches, spec_value_eq, ShaderValue};

broadcast use vstd::std_specs::vec::axiom_vec_index_decreases;

/// What one patch writes, a longer run of bytes shows too.
pub proof fn lemma_covers_slice(data: Seq<u8>, p: Seq<Option<u8>>, a: int, b: int)
    requires
        spec_covers(data, p),
        0 <= a <= b <= p.len(),
    ensures
        spec_covers(data.skip(a), p.subrange(a, b)),
{
    let sub = p.subrange(a, b);
    assert forall|i: int| 0 <= i < sub.len() && sub[i] is Some implies data.skip(a)[i] == (
    #[trigger] sub[i])->0 by {
        assert(sub[i] == p[a + i]);
        assert(data[a + i] == p[a + i]->0);
    }
}

/// Within the encoding of an array's elements, element `j` sits at `j`
/// strides.
pub proof fn lemma_enc_elements_slice(
    element: ShaderType,
    vs: Seq<ShaderValue>,
    ctx: Option<u32>,
    j: int,
    n: int,
)
    requires
        spec_wf(element),
        spec_is_fixed_footprint(element),
        0 <= j < n <= vs.len(),
        forall|k: int| 0 <= k < vs.len() ==> spec_matches(element, #[trigger] vs[k]),
    ensures
        spec_enc_elements(element, vs, ctx, n).subrange(
            j * spec_stride(element),
            j * spec_stride(element) + spec_enc(element, vs[j], ctx).len(),
        ) == spec_enc(element, vs[j], ctx),
    decreases n,
{
    let stride = spec_stride(element);
    lemma_wf_alignment(element);
    lemma_wf_min_size(element);
    lemma_round_up_properties(spec_min_size(element), spec_alignment(element));
    lemma_enc_elements_len(element, vs, ctx, n);
    lemma_enc_elements_len(element, vs, ctx, n - 1);
    lemma_enc_len(element, vs[j], ctx);
    let whole = spec_enc_elements(element, vs, ctx, n);
    let prefix = spec_enc_elements(element, vs, ctx, n - 1);
    if j < n - 1 {
        lemma_enc_elements_slice(element, vs, ctx, j, n - 1);
        assert(j * stride + spec_enc(element, vs[j], ctx).len() <= (n - 1) * stride)
            by (nonlinear_arith)
            requires
                j + 1 <= n - 1,
                stride >= 0,
                spec_enc(element, vs[j], ctx).len() <= stride,
                j >= 0,
        ;
        assert(whole.subrange(
            j * stride,
            j * stride + spec_enc(element, vs[j], ctx).len(),
        ) =~= prefix.subrange(j * stride, j * stride + spec_enc(element, vs[j], ctx).len()));
    } else {
        assert(prefix.len() == stride * (n - 1));
        assert(stride * (n - 1) == j * stride) by (nonlinear_arith)
            requires
                j == n - 1,
        ;
        assert(whole.subrange(
            j * stride,
            j * stride + spec_enc(element, vs[j], ctx).len(),
        ) =~= spec_enc(element, vs[j], ctx));
    }
}

/// Within the encoding of a struct's fields, field `j` sits at its own
/// offset.
pub proof fn lemma_enc_fields_slice(
    fields: Vec<FieldLayout>,
    vs: Seq<ShaderValue>,
    ctx: Option<u32>,
    rts: bool,
    j: int,
    n: int,
)
    requires
        fields@.len() >= 1,
        rts == (fields@[fields@.len() - 1].ty is RuntimeArray),
        spec_fields_wf(fields, rts, fields@.len() as int),
        vs.len() == fields@.len(),
        0 <= j < n <= fields@.len(),
        forall|k: int| 0 <= k < vs.len() ==> spec_matches((#[trigger] fields@[k]).ty, vs[k]),
    ensures
        spec_enc_fields(fields, vs, ctx, n).subrange(
            spec_offset(fields, j),
            spec_offset(fields, j) + spec_enc(fields@[j].ty, vs[j], ctx).len(),
        ) == spec_enc(fields@[j].ty, vs[j], ctx),
    decreases n,
{
    lemma_struct_offsets(fields, rts);
    lemma_enc_fields_len(fields, vs, ctx, n, rts);
    lemma_enc_fields_len(fields, vs, ctx, n - 1, rts);
    lemma_fields_wf_index(fields, rts, fields@.len() as int, j);
    lemma_enc_len(fields@[j].ty, vs[j], ctx);
    let whole = spec_enc_fields(fields, vs, ctx, n);
    let prefix = spec_enc_fields(fields, vs, ctx, n - 1);
    let enc_j = spec_enc(fields@[j].ty, vs[j], ctx);
    let off_j = spec_offset(fields, j);
    if j < n - 1 {
        lemma_enc_fields_slice(fields, vs, ctx, rts, j, n - 1);
        crate::encoding::lemma_fields_enc_end_monotone(fields, vs, ctx, rts, j + 1, n - 1);
        lemma_enc_fields_len(fields, vs, ctx, j, rts);
        lemma_enc_fields_len(fields, vs, ctx, j + 1, rts);
        assert(off_j + enc_j.len() <= prefix.len());
        assert(whole.subrange(off_j, off_j + enc_j.len()) =~= prefix.subrange(
            off_j,
            off_j + enc_j.len(),
        ));
    } else {
        assert(prefix.len() == spec_fields_enc_end(fields, vs, j, rts));
        assert(prefix.len() == off_j);
        assert(whole.subrange(off_j, off_j + enc_j.len()) =~= enc_j);
    }
}

/// Whether the element cap and the available bytes select exactly the
/// value's own element count for a runtime-sized tail. Fixed shapes, and
/// structs whose marker field pins the count, impose no condition.
pub open spec fn spec_count_ok(t: ShaderType, v: ShaderValue, data: Seq<u8>, cap: Option<u32>) -> bool {
    match t {
        ShaderType::RuntimeArray { element } => {
            let capn: int = match cap {
                Some(c) => c as int,
                None => u32::MAX as int,
            };
            let stride = spec_stride(*element);
            let count = if capn <= data.len() as int / stride {
                capn
            } else {
                data.len() as int / stride
            };
            count == v->RuntimeArray_0@.len()
        },
        ShaderType::Struct { fields } => {
            if spec_is_runtime_struct(t) && spec_array_length_index(
                fields,
                fields@.len() as int,
            ) < 0 {
                let element = fields@[fields@.len() - 1].ty->RuntimeArray_element;
                let capn: int = match cap {
                    Some(c) => c as int,
                    None => u32::MAX as int,
                };
                let stride = spec_stride(*element);
                let avail = data.len() - spec_offset(fields, fields@.len() - 1);
                let count = if capn <= avail / stride {
                    capn
                } else {
                    avail / stride
                };
                count == v->Struct_0@.last()->RuntimeArray_0@.len()
            } else {
                true
            }
        },
        _ => true,
    }
}

/// The round trip, stated over the bytes: any run of bytes that shows a
/// value's encoding decodes back to that value. A length marker pins a
/// runtime-sized tail's count; without one, `spec_count_ok` says the cap
/// and the available bytes select it.
#[verifier::rlimit(100)]
#[verifier::spinoff_prover]
pub proof fn lemma_decode_of_encoding(
    t: ShaderType,
    v: ShaderValue,
    ctx: Option<u32>,
    data: Seq<u8>,
    cap: Option<u32>,
)
    requires
        spec_wf(t) || t is ArrayLength,
        spec_matches(t, v),
        spec_covers(data, spec_enc(t, v, ctx)),
        spec_count_ok(t, v, data, cap),
    ensures
        spec_decodes(t, data, cap, v),
    decreases t, 0int, 0int,
{
    lemma_enc_len(t, v, ctx);
    vstd::bytes::lemma_auto_spec_u32_to_from_le_bytes();
    match t {
        ShaderType::Scalar => {
            let x = v->Scalar_0;
            assert forall|i: int| 0 <= i < 4 implies data[i] == spec_u32_to_le_bytes(x)[i] by {
                assert(spec_word_bytes(x)[i] == Some(spec_u32_to_le_bytes(x)[i]));
            }
            assert(data.subrange(0, 4) =~= spec_u32_to_le_bytes(x));
        },
        ShaderType::ArrayLength => {},
        ShaderType::Vector { n: _ } => {
            let els = v->Vector_0;
            assert forall|k: int| 0 <= k < els@.len() implies #[trigger] els@[k]
                == spec_u32_from_le_bytes(data.subrange(4 * k, 4 * k + 4)) by {
                assert forall|i: int|
                    0 <= i < 4 implies data[4 * k + i] == spec_u32_to_le_bytes(els@[k])[i] by {
                    assert((4 * k + i) / 4 == k && (4 * k + i) % 4 == i) by (nonlinear_arith)
                        requires
                            0 <= i < 4,
                            k >= 0,
                    ;
                    assert(spec_words(els@)[4 * k + i] == Some(
                        spec_u32_to_le_bytes(els@[k])[i],
                    ));
                }
                assert(data.subrange(4 * k, 4 * k + 4) =~= spec_u32_to_le_bytes(els@[k]));
            }
        },
        ShaderType::Matrix { c: _, r } => {
            let cols = v->Matrix_0;
            let rr = r as int;
            let cs = spec_round_up(4 * rr, spec_next_power_of_two(4 * rr));
            crate::shader_type::lemma_next_power_of_two(4 * rr);
            lemma_round_up_properties(4 * rr, spec_next_power_of_two(4 * rr));
            assert(spec_enc(t, v, ctx).len() == cols@.len() * cs) by (nonlinear_arith)
                requires
                    spec_enc(t, v, ctx).len() == spec_min_size(t),
                    spec_min_size(t) == (cols@.len() as int) * cs,
            ;
            assert forall|j: int, k: int|
                0 <= j < cols@.len() && 0 <= k < rr implies #[trigger] cols@[j]@[k]
                == spec_u32_from_le_bytes(
                data.subrange(j * cs + 4 * k, j * cs + 4 * k + 4),
            ) by {
                assert(j * cs + 4 * k + 4 <= cols@.len() * cs) by (nonlinear_arith)
                    requires
                        0 <= j < cols@.len(),
                        0 <= 4 * k + 4 <= cs,
                        cs >= 1,
                ;
                assert(cols@.len() * cs <= data.len());
                assert forall|i: int|
                    0 <= i < 4 implies data[j * cs + 4 * k + i] == spec_u32_to_le_bytes(
                    cols@[j]@[k],
                )[i] by {
                    let p = j * cs + 4 * k + i;
                    assert(p / cs == j && p % cs == 4 * k + i) by (nonlinear_arith)
                        requires
                            0 <= i < 4,
                            0 <= k,
                            4 * k + i < 4 * rr <= cs,
                            j >= 0,
                            cs >= 1,
                            p == j * cs + 4 * k + i,
                    ;
                    assert((4 * k + i) / 4 == k && (4 * k + i) % 4 == i) by (nonlinear_arith)
                        requires
                            0 <= i < 4,
                            k >= 0,
                    ;
                    assert(0 <= p < cols@.len() * cs) by (nonlinear_arith)
                        requires
                            0 <= j < cols@.len(),
                            0 <= 4 * k + i < cs,
                            p == j * cs + 4 * k + i,
                            cs >= 1,
                    ;
                    assert(spec_enc(t, v, ctx)[p] == Some(
                        spec_u32_to_le_bytes(cols@[j]@[k])[i],
                    ));
                }
                assert(data.subrange(j * cs + 4 * k, j * cs + 4 * k + 4) =~= spec_u32_to_le_bytes(
                    cols@[j]@[k],
                ));
            }
        },
        ShaderType::Array { element, n: _ } => {
            let vs = v->Array_0;
            let stride = spec_stride(*element);
            lemma_wf_alignment(*element);
            lemma_wf_min_size(*element);
            lemma_round_up_properties(spec_min_size(*element), spec_alignment(*element));
            lemma_enc_elements_len(*element, vs@, ctx, vs@.len() as int);
            assert forall|j: int| 0 <= j < vs@.len() implies spec_decodes(
                *element,
                data.skip(j * stride),
                cap,
                #[trigger] vs@[j],
            ) by {
                lemma_enc_len(*element, vs@[j], ctx);
                assert(0 <= j * stride && j * stride + spec_enc(*element, vs@[j], ctx).len()
                    <= stride * vs@.len()) by (nonlinear_arith)
                    requires
                        0 <= j < vs@.len(),
                        stride >= 0,
                        spec_enc(*element, vs@[j], ctx).len() <= stride,
                ;
                lemma_enc_elements_slice(*element, vs@, ctx, j, vs@.len() as int);
                lemma_covers_slice(
                    data,
                    spec_enc(t, v, ctx),
                    j * stride,
                    j * stride + spec_enc(*element, vs@[j], ctx).len(),
                );
                lemma_decode_of_encoding(*element, vs@[j], ctx, data.skip(j * stride), cap);
            }
        },
        ShaderType::RuntimeArray { element } => {
            let vs = v->RuntimeArray_0;
            let stride = spec_stride(*element);
            lemma_wf_alignment(*element);
            lemma_wf_min_size(*element);
            lemma_round_up_properties(spec_min_size(*element), spec_alignment(*element));
            lemma_enc_elements_len(*element, vs@, ctx, vs@.len() as int);
            assert forall|j: int| 0 <= j < vs@.len() implies spec_decodes(
                *element,
                data.skip(j * stride),
                cap,
                #[trigger] vs@[j],
            ) by {
                lemma_enc_len(*element, vs@[j], ctx);
                assert(0 <= j * stride && j * stride + spec_enc(*element, vs@[j], ctx).len()
                    <= stride * vs@.len()) by (nonlinear_arith)
                    requires
                        0 <= j < vs@.len(),
                        stride >= 0,
                        spec_enc(*element, vs@[j], ctx).len() <= stride,
                ;
                lemma_enc_elements_slice(*element, vs@, ctx, j, vs@.len() as int);
                lemma_covers_slice(
                    data,
                    spec_enc(t, v, ctx),
                    j * stride,
                    j * stride + spec_enc(*element, vs@[j], ctx).len(),
                );
                lemma_decode_of_encoding(*element, vs@[j], ctx, data.skip(j * stride), cap);
            }
        },
        ShaderType::Struct { fields } => {
            let vs = v->Struct_0;
            let n = fields@.len() as int;
            let rts = spec_is_runtime_struct(t);
            let inner_ctx = if rts {
                Some(vs@.last()->RuntimeArray_0@.len() as u32)
            } else {
                ctx
            };
            let al = spec_array_length_index(fields, n);
            let dcap = spec_struct_dcap(fields, data, cap);
            lemma_struct_offsets(fields, rts);
            lemma_enc_fields_len(fields, vs@, inner_ctx, n, rts);
            assert(spec_enc(t, v, ctx) == spec_enc_fields(fields, vs@, inner_ctx, n));
            if al >= 0 {
                // the marker's own bytes carry the tail length
                crate::encoding::lemma_array_length_index_is_marker(fields, n);
                lemma_fields_wf_index(fields, rts, n, al);
                assert(rts);
                assert(spec_matches(fields@[n - 1].ty, vs@[n - 1]));
                assert(vs@.last() == vs@[n - 1]);
                lemma_enc_fields_slice(fields, vs@, inner_ctx, rts, al, n);
                lemma_enc_fields_len(fields, vs@, inner_ctx, al, rts);
                lemma_enc_fields_len(fields, vs@, inner_ctx, al + 1, rts);
                crate::encoding::lemma_fields_enc_end_monotone(
                    fields,
                    vs@,
                    inner_ctx,
                    rts,
                    al + 1,
                    n,
                );
                lemma_enc_len(fields@[al].ty, vs@[al], inner_ctx);
                let off_al = spec_offset(fields, al);
                let tail_len = vs@.last()->RuntimeArray_0@.len() as u32;
                let sub = spec_enc(t, v, ctx).subrange(off_al, off_al + 4);
                assert(sub == spec_enc(fields@[al].ty, vs@[al], inner_ctx));
                assert forall|i: int|
                    0 <= i < 4 implies data[off_al + i] == spec_u32_to_le_bytes(tail_len)[i] by {
                    assert(sub[i] == Some(spec_u32_to_le_bytes(tail_len)[i]));
                    assert(spec_enc(t, v, ctx)[off_al + i] == sub[i]);
                }
                assert(data.subrange(off_al, off_al + 4) =~= spec_u32_to_le_bytes(tail_len));
                assert(dcap == Some(tail_len));
            }
            assert forall|j: int| 0 <= j < vs@.len() implies spec_decodes(
                (#[trigger] fields@[j]).ty,
                data.skip(spec_offset(fields, j)),
                dcap,
                vs@[j],
            ) by {
                lemma_fields_wf_index(fields, rts, n, j);
                lemma_enc_len(fields@[j].ty, vs@[j], inner_ctx);
                crate::encoding::lemma_fields_enc_end_monotone(
                    fields,
                    vs@,
                    inner_ctx,
                    rts,
                    j + 1,
                    n,
                );
                lemma_enc_fields_len(fields, vs@, inner_ctx, j, rts);
                lemma_enc_fields_len(fields, vs@, inner_ctx, j + 1, rts);
                lemma_enc_fields_slice(fields, vs@, inner_ctx, rts, j, n);
                lemma_covers_slice(
                    data,
                    spec_enc(t, v, ctx),
                    spec_offset(fields, j),
                    spec_offset(fields, j) + spec_enc(fields@[j].ty, vs@[j], inner_ctx).len(),
                );
                let data_j = data.skip(spec_offset(fields, j));
                if fields@[j].ty is RuntimeArray {
                    // the tail: the marker or the caller pins its count
                    assert(j == n - 1);
                    let element = fields@[j].ty->RuntimeArray_element;
                    let tail_vs = vs@[j]->RuntimeArray_0;
                    let stride = spec_stride(*element);
                    lemma_wf_alignment(*element);
                    lemma_wf_min_size(*element);
                    lemma_round_up_properties(
                        spec_min_size(*element),
                        spec_alignment(*element),
                    );
                    assert(data_j.len() == data.len() - spec_offset(fields, j));
                    assert(data.len() >= spec_enc_len(t, v));
                    assert(spec_enc_len(t, v) == spec_offset(fields, j) + stride
                        * tail_vs@.len());
                    if al >= 0 {
                        assert(vs@.last() == vs@[j]);
                        let capn = tail_vs@.len() as int;
                        vstd::arithmetic::div_mod::lemma_div_is_ordered(
                            stride * capn,
                            data_j.len() as int,
                            stride,
                        );
                        vstd::arithmetic::div_mod::lemma_div_multiples_vanish(capn, stride);
                        assert(data_j.len() as int / stride >= capn);
                        assert(spec_count_ok(fields@[j].ty, vs@[j], data_j, dcap));
                    } else {
                        assert(dcap == cap);
                        assert(spec_count_ok(fields@[j].ty, vs@[j], data_j, dcap));
                    }
                    lemma_decode_of_encoding(fields@[j].ty, vs@[j], inner_ctx, data_j, dcap);
                } else {
                    assert(spec_count_ok(fields@[j].ty, vs@[j], data_j, dcap));
                    lemma_decode_of_encoding(fields@[j].ty, vs@[j], inner_ctx, data_j, dcap);
                }
            }
        },
    }
}

/// A run of bytes decodes to at most one value under a given shape and
/// cap: reading is a function of the bytes. The two values agree feature
/// for feature (`spec_value_eq`).
pub proof fn lemma_decodes_deterministic(
    t: ShaderType,
    data: Seq<u8>,
    cap: Option<u32>,
    v1: ShaderValue,
    v2: ShaderValue,
)
    requires
        spec_wf(t) || t is ArrayLength,
        spec_decodes(t, data, cap, v1),
        spec_decodes(t, data, cap, v2),
    ensures
        spec_value_eq(v1, v2),
    decreases t, 0int, 0int,
{
    match t {
        ShaderType::Scalar => {},
        ShaderType::ArrayLength => {},
        ShaderType::Vector { n: _ } => {
            let e1 = v1->Vector_0;
            let e2 = v2->Vector_0;
            assert(e1@ =~= e2@);
        },
        ShaderType::Matrix { c: _, r: _ } => {
            let c1 = v1->Matrix_0;
            let c2 = v2->Matrix_0;
            assert forall|j: int| 0 <= j < c1@.len() implies (#[trigger] c1@[j])@ == c2@[j]@ by {
                assert(c1@[j]@ =~= c2@[j]@);
            }
        },
        ShaderType::Array { element, n: _ } => {
            let e1 = v1->Array_0;
            let e2 = v2->Array_0;
            assert forall|j: int|
                0 <= j < e1@.len() implies spec_value_eq(#[trigger] e1@[j], e2@[j]) by {
                lemma_decodes_deterministic(
                    *element,
                    data.skip(j * spec_stride(*element)),
                    cap,
                    e1@[j],
                    e2@[j],
                );
            }
        },
        ShaderType::RuntimeArray { element } => {
            let e1 = v1->RuntimeArray_0;
            let e2 = v2->RuntimeArray_0;
            assert forall|j: int|
                0 <= j < e1@.len() implies spec_value_eq(#[trigger] e1@[j], e2@[j]) by {
                lemma_decodes_deterministic(
                    *element,
                    data.skip(j * spec_stride(*element)),
                    cap,
                    e1@[j],
                    e2@[j],
                );
            }
        },
        ShaderType::Struct { fields } => {
            let n = fields@.len() as int;
            let rts = spec_is_runtime_struct(t);
            let dcap = spec_struct_dcap(fields, data, cap);
            let e1 = v1->Struct_0;
            let e2 = v2->Struct_0;
            assert forall|j: int|
                0 <= j < e1@.len() implies spec_value_eq(#[trigger] e1@[j], e2@[j]) by {
                lemma_fields_wf_index(fields, rts, n, j);
                lemma_decodes_deterministic(
                    fields@[j].ty,
                    data.skip(spec_offset(fields, j)),
                    dcap,
                    e1@[j],
                    e2@[j],
                );
            }
        },
    }
}

/// The round trip at the container level: the bytes a write lays down at
/// `at` decode back to the very value written, for every fixed-footprint
/// shape, and for every runtime-sized struct whose length marker pins its
/// tail. (A runtime-sized shape without a marker decodes to the count the
/// remaining bytes and the cap select: see `lemma_decode_of_encoding`.)
pub proof fn lemma_round_trip(t: ShaderType, v: ShaderValue, s: Seq<u8>, at: int)
    requires
        spec_wf(t),
        spec_matches(t, v),
        0 <= at,
        spec_is_fixed_footprint(t) || (t matches ShaderType::Struct { fields }
            && spec_array_length_index(fields, fields@.len() as int) >= 0),
    ensures
        spec_decodes(t, crate::buffers::spec_written(s, at, t, v).skip(at), None, v),
{
    let written = crate::buffers::spec_written(s, at, t, v);
    let enc = spec_enc(t, v, None);
    lemma_enc_len(t, v, None);
    crate::serialize::lemma_enc_len_le_size(t, v);
    crate::shader_value::lemma_size_bounds(t, v);
    let data = written.skip(at);
    assert(written.len() >= at + spec_enc_len(t, v));
    assert forall|i: int| 0 <= i < enc.len() && enc[i] is Some implies data[i] == (
    #[trigger] enc[i])->0 by {
        assert(written[at + i] == enc[i]->0);
    }
    assert(spec_covers(data, enc));
    if t matches ShaderType::Struct { fields } {
        if spec_is_runtime_struct(t) {
            assert(spec_count_ok(t, v, data, None));
        }
    }
    lemma_decode_of_encoding(t, v, None, data, None);
}

/// The wire size of every value is a whole number of its shape's
/// alignments — with the three-element vector again the one exception.
pub proof fn lemma_size_is_multiple_of_alignment(t: ShaderType, v: ShaderValue)
    requires
        spec_wf(t),
        spec_matches(t, v),
        match t {
            ShaderType::Vector { n } => n != 3,
            _ => true,
        },
    ensures
        crate::shader_value::spec_size(t, v) % spec_alignment(t) == 0,
{
    lemma_wf_alignment(t);
    crate::shader_value::lemma_size_bounds(t, v);
    match t {
        ShaderType::RuntimeArray { element } => {
            let len = v->RuntimeArray_0@.len() as int;
            let count: int = if len >= 1 {
                len
            } else {
                1
            };
            lemma_wf_alignment(*element);
            lemma_wf_min_size(*element);
            lemma_round_up_properties(spec_min_size(*element), spec_alignment(*element));
            crate::shader_type::lemma_multiple_stays_multiple(
                spec_stride(*element),
                count,
                spec_alignment(t),
            );
            assert(count * spec_stride(*element) == spec_stride(*element) * count)
                by (nonlinear_arith);
        },
        ShaderType::Struct { fields } => {
            if spec_is_runtime_struct(t) {
                let rts = true;
                let n = fields@.len() as int;
                let vs = v->Struct_0;
                lemma_struct_offsets(fields, rts);
                crate::shader_type::lemma_fields_alignment(fields, rts, n);
                lemma_fields_wf_index(fields, rts, n, n - 1);
                lemma_field_size(fields@[n - 1], rts, true);
                crate::shader_value::lemma_size_bounds(fields@[n - 1].ty, vs@[n - 1]);
                lemma_round_up_properties(
                    spec_offset(fields, n - 1) + crate::shader_value::spec_size(
                        fields@[n - 1].ty,
                        vs@[n - 1],
                    ),
                    spec_alignment(t),
                );
            } else {
                crate::shader_type::lemma_min_size_is_multiple_of_alignment(t);
            }
        },
        _ => {
            crate::shader_type::lemma_min_size_is_multiple_of_alignment(t);
        },
    }
}

/// No padding found among the first fields means none at each field.
pub proof fn lemma_fields_no_padding_each(fields: Vec<FieldLayout>, i: int, j: int)
    requires
        0 <= j < i <= fields.len(),
        !crate::shader_type::spec_fields_have_padding(fields, i),
    ensures
        !crate::shader_type::spec_has_internal_padding(fields[j].ty),
        crate::shader_type::spec_struct_padding(fields, j) == 0,
    decreases i,
{
    if j < i - 1 {
        lemma_fields_no_padding_each(fields, i - 1, j);
    }
}

/// The encoding of the first `i` elements of a padding-free array writes
/// every byte.
pub proof fn lemma_enc_elements_all_some(
    element: ShaderType,
    vs: Seq<ShaderValue>,
    ctx: Option<u32>,
    i: int,
)
    requires
        spec_wf(element),
        !crate::shader_type::spec_has_internal_padding(element),
        spec_stride(element) == spec_min_size(element),
        0 <= i <= vs.len(),
        forall|k: int| 0 <= k < vs.len() ==> spec_matches(element, #[trigger] vs[k]),
    ensures
        forall|k: int|
            0 <= k < spec_enc_elements(element, vs, ctx, i).len() ==> (#[trigger] spec_enc_elements(
                element,
                vs,
                ctx,
                i,
            )[k]) is Some,
    decreases element, 3int, i,
{
    if i > 0 {
        lemma_enc_elements_all_some(element, vs, ctx, i - 1);
        lemma_no_internal_padding_writes_all(element, vs[i - 1], ctx);
    }
}

/// A shape without internal padding writes every byte of its span: its
/// encoding has no gaps, so a single bulk copy of the whole little-endian
/// run moves the value.
pub proof fn lemma_no_internal_padding_writes_all(t: ShaderType, v: ShaderValue, ctx: Option<u32>)
    requires
        spec_wf(t) || t is ArrayLength,
        spec_matches(t, v),
        !crate::shader_type::spec_has_internal_padding(t),
    ensures
        forall|i: int|
            0 <= i < spec_enc(t, v, ctx).len() ==> (#[trigger] spec_enc(t, v, ctx)[i]) is Some,
    decreases t, 2int, 0int,
{
    match t {
        ShaderType::Scalar => {},
        ShaderType::ArrayLength => {},
        ShaderType::Vector { n: _ } => {},
        ShaderType::Matrix { c: _, r } => {
            let rr = r as int;
            let cs = spec_round_up(4 * rr, spec_next_power_of_two(4 * rr));
            assert(cs == 4 * rr);
            assert forall|i: int|
                0 <= i < spec_enc(t, v, ctx).len() implies (#[trigger] spec_enc(t, v, ctx)[i])
                is Some by {
                vstd::arithmetic::div_mod::lemma_mod_division_less_than_divisor(i, cs);
            }
        },
        ShaderType::Array { element, n: _ } => {
            lemma_wf_alignment(*element);
            lemma_wf_min_size(*element);
            lemma_round_up_properties(spec_min_size(*element), spec_alignment(*element));
            lemma_enc_elements_all_some(*element, v->Array_0@, ctx, v->Array_0@.len() as int);
        },
        ShaderType::RuntimeArray { element } => {
            lemma_wf_alignment(*element);
            lemma_wf_min_size(*element);
            lemma_round_up_properties(spec_min_size(*element), spec_alignment(*element));
            lemma_enc_elements_all_some(
                *element,
                v->RuntimeArray_0@,
                ctx,
                v->RuntimeArray_0@.len() as int,
            );
        },
        ShaderType::Struct { fields } => {
            let n = fields@.len() as int;
            let rts = spec_is_runtime_struct(t);
            let vs = v->Struct_0@;
            let inner_ctx = if rts {
                Some(vs.last()->RuntimeArray_0@.len() as u32)
            } else {
                ctx
            };
            lemma_struct_fields_enc_all_some(fields, vs, inner_ctx, rts, n);
        },
    }
}

/// The encoding of the first `i` fields of a padding-free struct writes
/// every byte.
pub proof fn lemma_struct_fields_enc_all_some(
    fields: Vec<FieldLayout>,
    vs: Seq<ShaderValue>,
    ctx: Option<u32>,
    rts: bool,
    i: int,
)
    requires
        fields@.len() >= 1,
        rts == (fields@[fields@.len() - 1].ty is RuntimeArray),
        spec_fields_wf(fields, rts, fields@.len() as int),
        !crate::shader_type::spec_fields_have_padding(fields, fields@.len() as int),
        vs.len() == fields@.len(),
        0 <= i <= fields@.len(),
        forall|k: int| 0 <= k < vs.len() ==> spec_matches((#[trigger] fields@[k]).ty, vs[k]),
    ensures
        forall|k: int|
            0 <= k < spec_enc_fields(fields, vs, ctx, i).len() ==> (#[trigger] spec_enc_fields(
                fields,
                vs,
                ctx,
                i,
            )[k]) is Some,
    decreases fields, 3int, i,
{
    if i > 0 {
        lemma_struct_fields_enc_all_some(fields, vs, ctx, rts, i - 1);
        lemma_fields_wf_index(fields, rts, fields@.len() as int, i - 1);
        lemma_fields_no_padding_each(fields, fields@.len() as int, i - 1);
        lemma_no_internal_padding_writes_all(fields@[i - 1].ty, vs[i - 1], ctx);
    }
}

} // verus!
