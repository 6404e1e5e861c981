//! Recursive encoding of values into byte containers: each shape writes its
//! fields, elements or columns and skips its padding.

use vstd::prelude::*;

verus! {

use crate::encoding::{
    spec_enc, spec_enc_elements, spec_enc_fields, spec_enc_len, spec_fields_enc_end,
    spec_padding_bytes, spec_splice, spec_word_bytes, spec_words, lemma_enc_fields_len,
    lemma_enc_elements_len, lemma_enc_len, lemma_fields_enc_end_monotone, lemma_matrix_col_snoc,
    lemma_splice_append, lemma_splice_drop_padding, lemma_splice_word, lemma_words_snoc,
};
use crate::alignment_value::{spec_round_up, AlignmentValue, lemma_round_up_properties};
use crate::rw::{BufferMut, BufferRef, Reader, Writer};
use crate::shader_type::{
    spec_alignment, spec_is_fixed_footprint, spec_is_runtime_struct, spec_min_size,
    spec_next_power_of_two, spec_offset, spec_stride, spec_struct_min_size, spec_struct_padding,
    spec_wf, lemma_fields_wf_index, lemma_struct_offsets, lemma_wf_alignment, lemma_wf_min_size,
    element_stride, struct_layout, FieldLayout, ShaderType,
};
use crate::shader_value::{spec_matches, spec_size, lemma_size_bounds, ShaderValue};

broadcast use vstd::std_specs::vec::axiom_vec_index_decreases, vstd::std_specs::vec::axiom_spec_len;

/// What the write context holds once a value has been written: the tail
/// length of a runtime-sized struct, else whatever it held before.
pub open spec fn spec_ctx_after_write(t: ShaderType, v: ShaderValue, c: Option<u32>) -> Option<
    u32,
> {
    if spec_is_runtime_struct(t) {
        Some(v->Struct_0@.last()->RuntimeArray_0@.len() as u32)
    } else {
        c
    }
}

/// A value never writes past its wire size.
pub proof fn lemma_enc_len_le_size(t: ShaderType, v: ShaderValue)
    requires
        spec_wf(t),
        spec_matches(t, v),
    ensures
        spec_enc_len(t, v) <= spec_size(t, v),
        spec_enc_len(t, v) >= 0,
    decreases t,
{
    lemma_enc_len(t, v, None);
    lemma_size_bounds(t, v);
    match t {
        ShaderType::RuntimeArray { element } => {
            let len = v->RuntimeArray_0@.len() as int;
            lemma_wf_alignment(*element);
            lemma_wf_min_size(*element);
            lemma_round_up_properties(spec_min_size(*element), spec_alignment(*element));
            if len == 0 {
                assert(spec_stride(*element) * 0 == 0) by (nonlinear_arith);
            }
        },
        ShaderType::Struct { fields } => {
            if spec_is_runtime_struct(t) {
                let rts = true;
                let n = fields@.len() as int;
                let last = n - 1;
                let vs = v->Struct_0@;
                lemma_struct_offsets(fields, rts);
                crate::shader_type::lemma_fields_alignment(fields, rts, n);
                lemma_fields_wf_index(fields, rts, n, last);
                lemma_enc_len_le_size(fields@[last].ty, vs[last]);
                lemma_round_up_properties(
                    spec_offset(fields, last) + spec_size(fields@[last].ty, vs[last]),
                    crate::shader_type::spec_fields_alignment(fields, n),
                );
                crate::shader_type::lemma_offset_step(fields, rts, last);
            }
        },
        _ => {},
    }
}

/// What a value's wire size is, given the bytes its encoding spans: the
/// shape's minimum, or the span rounded up to the shape's alignment when a
/// runtime-sized tail pushes past the minimum.
pub proof fn lemma_size_from_enc_len(t: ShaderType, v: ShaderValue)
    requires
        spec_wf(t),
        spec_matches(t, v),
    ensures
        spec_size(t, v) == (if spec_enc_len(t, v) <= spec_min_size(t) {
            spec_min_size(t)
        } else {
            spec_round_up(spec_enc_len(t, v), spec_alignment(t))
        }),
    decreases t,
{
    lemma_enc_len(t, v, None);
    lemma_size_bounds(t, v);
    crate::shader_type::lemma_wf_alignment(t);
    crate::shader_type::lemma_wf_min_size(t);
    match t {
        ShaderType::RuntimeArray { element } => {
            let len = v->RuntimeArray_0@.len() as int;
            let stride = spec_stride(*element);
            lemma_wf_alignment(*element);
            lemma_wf_min_size(*element);
            lemma_round_up_properties(spec_min_size(*element), spec_alignment(*element));
            assert(stride * 1 == stride) by (nonlinear_arith);
            assert(spec_min_size(t) == stride);
            assert(spec_alignment(t) == spec_alignment(*element));
            assert(spec_size(t, v) == stride * (if len >= 1 { len } else { 1 }));
            assert(spec_enc_len(t, v) == stride * len);
            if len == 0 {
                assert(stride * 0 == 0) by (nonlinear_arith);
                assert(spec_size(t, v) == stride);
            } else {
                assert(stride * 1 <= stride * len) by (nonlinear_arith)
                    requires
                        len >= 1,
                        stride >= 0,
                ;
                if stride * len <= stride {
                    assert(len == 1) by (nonlinear_arith)
                        requires
                            stride >= 1,
                            len >= 1,
                            stride * len <= stride,
                    ;
                }
                crate::shader_type::lemma_multiple_stays_multiple(
                    stride,
                    len,
                    spec_alignment(t),
                );
                assert(len * stride == stride * len) by (nonlinear_arith);
                lemma_round_up_properties(stride * len, spec_alignment(t));
                assert(spec_size(t, v) == stride * len);
                if stride * len <= stride {
                    assert(spec_size(t, v) == spec_min_size(t));
                } else {
                    assert(spec_round_up(stride * len, spec_alignment(t)) == stride * len);
                }
            }
        },
        ShaderType::Struct { fields } => {
            if spec_is_runtime_struct(t) {
                let rts = true;
                let n = fields@.len() as int;
                let last = n - 1;
                let vs = v->Struct_0@;
                let element = fields@[last].ty->RuntimeArray_element;
                let len = vs[last]->RuntimeArray_0@.len() as int;
                let stride = spec_stride(*element);
                let aa = crate::shader_type::spec_fields_alignment(fields, n);
                reveal_with_fuel(crate::shader_value::spec_size, 2);
                reveal_with_fuel(crate::encoding::spec_enc_len, 2);
                lemma_struct_offsets(fields, rts);
                crate::shader_type::lemma_fields_alignment(fields, rts, n);
                lemma_fields_wf_index(fields, rts, n, last);
                lemma_wf_alignment(*element);
                lemma_wf_min_size(*element);
                lemma_round_up_properties(spec_min_size(*element), spec_alignment(*element));
                crate::shader_type::lemma_field_size(fields@[last], rts, true);
                let off = spec_offset(fields, last);
                assert(stride * 1 == stride) by (nonlinear_arith);
                assert(spec_min_size(t) == spec_round_up(off + stride, aa));
                if len == 0 {
                    assert(stride * 0 == 0) by (nonlinear_arith);
                    lemma_round_up_properties(off, aa);
                    crate::alignment_value::lemma_round_up_is_least(
                        off,
                        aa,
                        spec_round_up(off + stride, aa),
                    );
                    lemma_round_up_properties(off + stride, aa);
                } else {
                    assert(stride * 1 <= stride * len) by (nonlinear_arith)
                        requires
                            len >= 1,
                            stride >= 0,
                    ;
                    lemma_round_up_properties(off + stride * len, aa);
                    lemma_round_up_properties(off + stride, aa);
                    if off + stride * len <= spec_min_size(t) {
                        crate::alignment_value::lemma_round_up_is_least(
                            off + stride * len,
                            aa,
                            spec_min_size(t),
                        );
                        crate::alignment_value::lemma_round_up_monotone(
                            off + stride,
                            off + stride * len,
                            aa,
                        );
                    }
                }
            }
        },
        _ => {},
    }
}

/// Writes one little-endian word at the cursor.
fn write_word<B: BufferMut>(x: u32, writer: &mut Writer, buffer: &mut B)
    requires
        old(writer).pos + 4 <= old(buffer).contents().len(),
    ensures
        final(buffer).contents() == spec_splice(
            old(buffer).contents(),
            old(writer).pos as int,
            spec_word_bytes(x),
        ),
        final(writer).pos == old(writer).pos + 4,
        final(writer).ctx == old(writer).ctx,
{
    let bytes = vstd::bytes::u32_to_le_bytes(x);
    proof {
        lemma_splice_word(old(buffer).contents(), old(writer).pos as int, x);
    }
    writer.write(buffer, bytes.as_slice());
}

impl ShaderValue {
    /// Writes this value at the cursor: fields, elements and columns in
    /// order, with every padding gap skipped, not written.
    #[verifier::loop_isolation(false)]
    #[verifier::rlimit(100)]
    pub fn write_into<B: BufferMut>(&self, t: &ShaderType, writer: &mut Writer, buffer: &mut B)
        requires
            spec_wf(*t) || *t is ArrayLength,
            spec_matches(*t, *self),
            *t is ArrayLength ==> old(writer).ctx.rts_array_length is Some,
            old(writer).pos + spec_enc_len(*t, *self) <= old(buffer).contents().len(),
        ensures
            final(buffer).contents() == spec_splice(
                old(buffer).contents(),
                old(writer).pos as int,
                spec_enc(*t, *self, old(writer).ctx.rts_array_length),
            ),
            final(writer).pos == old(writer).pos + spec_enc_len(*t, *self),
            final(writer).ctx.rts_array_length == spec_ctx_after_write(
                *t,
                *self,
                old(writer).ctx.rts_array_length,
            ),
        decreases *self, 0int, 0int,
    {
        proof {
            lemma_enc_len(*t, *self, old(writer).ctx.rts_array_length);
        }
        match (t, self) {
            (ShaderType::Scalar, ShaderValue::Scalar(x)) => {
                write_word(*x, writer, buffer);
            },
            (ShaderType::ArrayLength, ShaderValue::ArrayLength) => {
                let l = writer.ctx.rts_array_length.unwrap();
                write_word(l, writer, buffer);
            },
            (ShaderType::Vector { n: _ }, ShaderValue::Vector(els)) => {
                let m = els.len();
                let ghost base = old(writer).pos as int;
                let ghost s0 = old(buffer).contents();
                let mut j: usize = 0;
                proof {
                    assert(spec_words(els@.subrange(0, 0)) =~= Seq::<Option<u8>>::empty());
                    crate::encoding::lemma_splice_empty(s0, base);
                }
                while j < m
                    invariant
                        0 <= j <= m,
                        writer.pos == base + 4 * j,
                        writer.ctx == old(writer).ctx,
                        buffer.contents().len() == s0.len(),
                        buffer.contents() == spec_splice(
                            s0,
                            base,
                            spec_words(els@.subrange(0, j as int)),
                        ),
                    decreases m - j,
                {
                    write_word(els[j], writer, buffer);
                    proof {
                        lemma_words_snoc(els@, j as int);
                        lemma_splice_append(
                            s0,
                            base,
                            spec_words(els@.subrange(0, j as int)),
                            spec_word_bytes(els@[j as int]),
                        );
                    }
                    j = j + 1;
                }
                proof {
                    assert(els@.subrange(0, m as int) == els@);
                }
            },
            (ShaderType::Matrix { c: _, r }, ShaderValue::Matrix(cols)) => {
                let ghost base = old(writer).pos as int;
                let ghost s0 = old(buffer).contents();
                let ghost ctx0 = old(writer).ctx.rts_array_length;
                let ghost full = spec_enc(*t, *self, ctx0);
                let col_align = AlignmentValue::from_next_power_of_two_size(
                    crate::size_value::SizeValue::new(4 * *r),
                );
                proof {
                    crate::shader_type::lemma_next_power_of_two(4 * (*r as int));
                    crate::shader_type::lemma_power_of_two_unique_in_range(
                        col_align.spec_get() as int,
                        spec_next_power_of_two(4 * (*r as int)),
                        4 * (*r as int),
                    );
                    lemma_round_up_properties(4 * (*r as int), col_align.spec_get() as int);
                }
                let col_stride = col_align.round_up(4 * *r);
                proof {
                    assert(col_stride < 48);
                    assert(full.len() == spec_enc_len(*t, *self));
                    assert(full.subrange(0, 0) =~= Seq::<Option<u8>>::empty());
                    crate::encoding::lemma_splice_empty(s0, base);
                }
                proof {
                    old(buffer).lemma_len_bounded();
                }
                let m = cols.len();
                let mut j: usize = 0;
                while j < m
                    invariant
                        0 <= j <= m,
                        writer.pos == base + j * col_stride,
                        writer.ctx == old(writer).ctx,
                        buffer.contents().len() == s0.len(),
                        buffer.contents() == spec_splice(
                            s0,
                            base,
                            full.subrange(0, j as int * col_stride as int),
                        ),
                    decreases m - j,
                {
                    proof {
                        assert((j as int + 1) * col_stride <= m as int * col_stride)
                            by (nonlinear_arith)
                            requires
                                j as int + 1 <= m as int,
                                col_stride >= 0,
                        ;
                        assert(m as int * col_stride == full.len());
                        assert((j as int + 1) * col_stride == j as int * col_stride + col_stride)
                            by (nonlinear_arith);
                    }
                    let col = &cols[j];
                    let words = col.len();
                    let ghost colbase = base + j as int * col_stride as int;
                    let ghost p0 = full.subrange(0, j as int * col_stride as int);
                    let ghost sj = buffer.contents();
                    let mut k: usize = 0;
                    proof {
                        assert(spec_words(col@.subrange(0, 0)) =~= Seq::<Option<u8>>::empty());
                        crate::encoding::lemma_splice_empty(sj, colbase);
                    }
                    while k < words
                        invariant
                            0 <= k <= words,
                            writer.pos == colbase + 4 * k,
                            writer.ctx == old(writer).ctx,
                            buffer.contents().len() == s0.len(),
                            buffer.contents() == spec_splice(
                                sj,
                                colbase,
                                spec_words(col@.subrange(0, k as int)),
                            ),
                        decreases words - k,
                    {
                        write_word(col[k], writer, buffer);
                        proof {
                            lemma_words_snoc(col@, k as int);
                            lemma_splice_append(
                                sj,
                                colbase,
                                spec_words(col@.subrange(0, k as int)),
                                spec_word_bytes(col@[k as int]),
                            );
                        }
                        k = k + 1;
                    }
                    proof {
                        assert(base + (j as int + 1) * col_stride <= s0.len() <= usize::MAX);
                    }
                    writer.advance((col_stride - 4 * *r) as usize);
                    proof {
                        assert(col@.subrange(0, words as int) == col@);
                        // the column's words after the prefix patch equal the
                        // prefix extended by one padded column
                        lemma_splice_append(s0, base, p0, spec_words(col@));
                        lemma_splice_drop_padding(
                            s0,
                            base,
                            p0 + spec_words(col@),
                            col_stride as int - 4 * (*r as int),
                        );
                        lemma_matrix_col_snoc(*t, *self, ctx0, j as int);
                        assert(full.subrange(0, (j as int + 1) * col_stride as int)
                            =~= p0 + spec_words(col@) + spec_padding_bytes(
                            col_stride as int - 4 * (*r as int),
                        ));
                        assert((p0 + spec_words(col@)) + spec_padding_bytes(
                            col_stride as int - 4 * (*r as int),
                        ) =~= p0 + spec_words(col@) + spec_padding_bytes(
                            col_stride as int - 4 * (*r as int),
                        ));
                    }
                    j = j + 1;
                }
                proof {
                    assert(m as int * col_stride == full.len());
                    assert(full.subrange(0, full.len() as int) == full);
                }
            },
            (ShaderType::Array { element, n: _ }, ShaderValue::Array(vs)) => {
                proof {
                    lemma_wf_alignment(**element);
                    lemma_wf_min_size(**element);
                    lemma_round_up_properties(spec_min_size(**element), spec_alignment(**element));
                    assert(spec_stride(**element) * (vs@.len() as int) == spec_enc_len(*t, *self))
                        by (nonlinear_arith)
                        requires
                            spec_enc_len(*t, *self) == spec_round_up(
                                spec_min_size(**element),
                                spec_alignment(**element),
                            ) * (vs@.len() as int),
                            spec_stride(**element) == spec_round_up(
                                spec_min_size(**element),
                                spec_alignment(**element),
                            ),
                    ;
                    assert(spec_stride(**element) <= spec_stride(**element) * (vs@.len() as int)
                        || vs@.len() == 0) by (nonlinear_arith)
                        requires
                            spec_stride(**element) >= 0,
                    ;
                }
                write_elements(vs, element, writer, buffer);
            },
            (ShaderType::RuntimeArray { element }, ShaderValue::RuntimeArray(vs)) => {
                proof {
                    lemma_wf_alignment(**element);
                    lemma_wf_min_size(**element);
                    lemma_round_up_properties(spec_min_size(**element), spec_alignment(**element));
                }
                write_elements(vs, element, writer, buffer);
            },
            (ShaderType::Struct { fields }, ShaderValue::Struct(vs)) => {
                let ghost base = old(writer).pos as int;
                let ghost s0 = old(buffer).contents();
                let ghost rts = spec_is_runtime_struct(*t);
                let n = fields.len();
                let is_rts = match &fields[n - 1].ty {
                    ShaderType::RuntimeArray { .. } => true,
                    _ => false,
                };
                proof {
                    assert(vs@.len() == n);
                    assert(is_rts == rts);
                }
                if is_rts {
                    let tail_len: u32 = match &vs[n - 1] {
                        ShaderValue::RuntimeArray(tvs) => {
                            proof {
                                lemma_fields_wf_index(*fields, rts, n as int, n as int - 1);
                                assert(spec_matches(fields@[n - 1].ty, vs@[n - 1]));
                                assert(tvs@.len() <= u32::MAX);
                                assert(vs@.last() == vs@[n - 1]);
                            }
                            tvs.len() as u32
                        },
                        _ => {
                            proof {
                                assert(spec_matches(fields@[n - 1].ty, vs@[n - 1]));
                                assert(false);
                            }
                            0
                        },
                    };
                    proof {
                        assert(tail_len == vs@.last()->RuntimeArray_0@.len() as u32);
                    }
                    writer.ctx.rts_array_length = Some(tail_len);
                }
                let ghost ctx0 = writer.ctx.rts_array_length;
                proof {
                    assert(ctx0 == (if rts {
                        Some(vs@.last()->RuntimeArray_0@.len() as u32)
                    } else {
                        old(writer).ctx.rts_array_length
                    }));
                    old(buffer).lemma_len_bounded();
                    lemma_struct_offsets(*fields, rts);
                    lemma_enc_fields_len(*fields, vs@, ctx0, 0, rts);
                    crate::encoding::lemma_splice_empty(s0, base);
                    lemma_enc_fields_len(*fields, vs@, ctx0, n as int, rts);
                    assert(spec_fields_enc_end(*fields, vs@, n as int, rts) == spec_enc_len(
                        *t,
                        *self,
                    ));
                }
                let layout = struct_layout(fields);
                let mut j: usize = 0;
                while j < n
                    invariant
                        0 <= j <= n,
                        writer.pos == base + spec_fields_enc_end(*fields, vs@, j as int, rts),
                        writer.ctx.rts_array_length == ctx0,
                        buffer.contents().len() == s0.len(),
                        buffer.contents() == spec_splice(
                            s0,
                            base,
                            spec_enc_fields(*fields, vs@, ctx0, j as int),
                        ),
                    decreases n - j,
                {
                    proof {
                        lemma_fields_wf_index(*fields, rts, n as int, j as int);
                        lemma_enc_fields_len(*fields, vs@, ctx0, j as int, rts);
                        lemma_enc_fields_len(*fields, vs@, ctx0, j as int + 1, rts);
                        lemma_enc_len(fields@[j as int].ty, vs@[j as int], ctx0);
                        lemma_fields_enc_end_monotone(
                            *fields,
                            vs@,
                            ctx0,
                            rts,
                            j as int + 1,
                            n as int,
                        );
                        assert(!spec_is_runtime_struct(fields@[j as int].ty));
                    }
                    let ghost sj = buffer.contents();
                    let ghost pos_j = writer.pos as int;
                    vs[j].write_into(&fields[j].ty, writer, buffer);
                    proof {
                        lemma_splice_append(
                            s0,
                            base,
                            spec_enc_fields(*fields, vs@, ctx0, j as int),
                            spec_enc(fields@[j as int].ty, vs@[j as int], ctx0),
                        );
                    }
                    let pad = layout.1[j];
                    proof {
                        assert(pad as int == spec_struct_padding(*fields, j as int));
                        assert(spec_padding_bytes(pad as int).len() == pad as int);
                        assert(spec_fields_enc_end(*fields, vs@, j as int, rts) + spec_enc_len(
                            fields@[j as int].ty,
                            vs@[j as int],
                        ) + pad as int == spec_fields_enc_end(*fields, vs@, j as int + 1, rts));
                        assert(pad as int <= usize::MAX);
                    }
                    writer.advance(pad as usize);
                    proof {
                        lemma_splice_drop_padding(
                            s0,
                            base,
                            spec_enc_fields(*fields, vs@, ctx0, j as int) + spec_enc(
                                fields@[j as int].ty,
                                vs@[j as int],
                                ctx0,
                            ),
                            pad as int,
                        );
                        assert(spec_enc_fields(*fields, vs@, ctx0, j as int + 1)
                            =~= (spec_enc_fields(*fields, vs@, ctx0, j as int) + spec_enc(
                            fields@[j as int].ty,
                            vs@[j as int],
                            ctx0,
                        )) + spec_padding_bytes(pad as int));
                    }
                    j = j + 1;
                }
                proof {
                    assert(spec_enc(*t, *self, old(writer).ctx.rts_array_length)
                        == spec_enc_fields(*fields, vs@, ctx0, n as int));
                }
            },
            _ => {
                proof {
                    assert(false);
                }
            },
        }
    }
}

impl ShaderValue {
    /// Builds a fresh value from the bytes at the cursor, skipping padding.
    /// A length marker decoded on the way caps the elements a later
    /// runtime-sized tail reads; without one, the tail reads as many
    /// elements as fit in the remaining bytes.
    #[verifier::loop_isolation(false)]
    #[verifier::rlimit(100)]
    pub fn create_from<B: BufferRef>(t: &ShaderType, reader: &mut Reader, buffer: &B) -> (v:
        ShaderValue)
        requires
            spec_wf(*t) || *t is ArrayLength,
            old(reader).len == buffer.contents().len(),
            old(reader).pos + spec_min_size(*t) <= buffer.contents().len(),
        ensures
            spec_matches(*t, v),
            crate::encoding::spec_decodes(
                *t,
                buffer.contents().skip(old(reader).pos as int),
                old(reader).ctx.rts_array_max_el_to_read,
                v,
            ),
            final(reader).pos == old(reader).pos + spec_enc_len(*t, v),
            old(reader).pos + spec_enc_len(*t, v) <= buffer.contents().len(),
            final(reader).len == old(reader).len,
            final(reader).ctx.rts_array_max_el_to_read == crate::encoding::spec_ctx_after_read(
                *t,
                buffer.contents().skip(old(reader).pos as int),
                old(reader).ctx.rts_array_max_el_to_read,
            ),
        decreases *t, 0int, 0int,
    {
        let ghost base = old(reader).pos as int;
        let ghost data = buffer.contents().skip(base);
        proof {
            buffer.lemma_len_bounded();
        }
        match t {
            ShaderType::Scalar => {
                let bytes = reader.read(buffer, 4);
                let x = vstd::bytes::u32_from_le_bytes(bytes.as_slice());
                proof {
                    assert(data.subrange(0, 4) =~= buffer.contents().subrange(base, base + 4));
                    assert(x == vstd::bytes::spec_u32_from_le_bytes(data.subrange(0, 4)));
                    assert(crate::encoding::spec_decodes(
                        *t,
                        data,
                        old(reader).ctx.rts_array_max_el_to_read,
                        ShaderValue::Scalar(x),
                    ));
                }
                ShaderValue::Scalar(x)
            },
            ShaderType::ArrayLength => {
                let bytes = reader.read(buffer, 4);
                let x = vstd::bytes::u32_from_le_bytes(bytes.as_slice());
                reader.ctx.rts_array_max_el_to_read = Some(x);
                proof {
                    assert(data.subrange(0, 4) =~= buffer.contents().subrange(base, base + 4));
                }
                ShaderValue::ArrayLength
            },
            ShaderType::Vector { n } => {
                let m = *n as usize;
                let mut els: Vec<u32> = Vec::new();
                let mut k: usize = 0;
                while k < m
                    invariant
                        0 <= k <= m,
                        reader.pos == base + 4 * k,
                        reader.len == old(reader).len,
                        reader.ctx == old(reader).ctx,
                        els@.len() == k,
                        forall|i: int|
                            0 <= i < k ==> #[trigger] els@[i]
                                == vstd::bytes::spec_u32_from_le_bytes(
                                data.subrange(4 * i, 4 * i + 4),
                            ),
                    decreases m - k,
                {
                    let bytes = reader.read(buffer, 4);
                    let x = vstd::bytes::u32_from_le_bytes(bytes.as_slice());
                    els.push(x);
                    proof {
                        assert(data.subrange(4 * k as int, 4 * k as int + 4) =~= buffer.contents()
                            .subrange(base + 4 * k as int, base + 4 * k as int + 4));
                    }
                    k = k + 1;
                }
                ShaderValue::Vector(els)
            },
            ShaderType::Matrix { c, r } => {
                let col_align = AlignmentValue::from_next_power_of_two_size(
                    crate::size_value::SizeValue::new(4 * *r),
                );
                proof {
                    crate::shader_type::lemma_next_power_of_two(4 * (*r as int));
                    crate::shader_type::lemma_power_of_two_unique_in_range(
                        col_align.spec_get() as int,
                        spec_next_power_of_two(4 * (*r as int)),
                        4 * (*r as int),
                    );
                    lemma_round_up_properties(4 * (*r as int), col_align.spec_get() as int);
                }
                let col_stride = col_align.round_up(4 * *r);
                proof {
                    assert(col_stride < 48);
                    assert((*c as int) * col_stride == spec_min_size(*t));
                }
                let m = *c as usize;
                let words = *r as usize;
                let mut cols: Vec<Vec<u32>> = Vec::new();
                let mut j: usize = 0;
                while j < m
                    invariant
                        0 <= j <= m,
                        reader.pos == base + j * col_stride,
                        reader.len == old(reader).len,
                        reader.ctx == old(reader).ctx,
                        cols@.len() == j,
                        forall|i: int| 0 <= i < j ==> (#[trigger] cols@[i])@.len() == *r,
                        forall|i: int, k: int|
                            0 <= i < j && 0 <= k < *r ==> #[trigger] cols@[i]@[k]
                                == vstd::bytes::spec_u32_from_le_bytes(
                                data.subrange(
                                    i * col_stride as int + 4 * k,
                                    i * col_stride as int + 4 * k + 4,
                                ),
                            ),
                    decreases m - j,
                {
                    proof {
                        assert((j as int + 1) * col_stride == j as int * col_stride + col_stride)
                            by (nonlinear_arith);
                        assert((j as int + 1) * col_stride <= m as int * col_stride)
                            by (nonlinear_arith)
                            requires
                                j as int + 1 <= m as int,
                                col_stride >= 0,
                        ;
                    }
                    let mut col: Vec<u32> = Vec::new();
                    let ghost colbase = base + j as int * col_stride as int;
                    let mut k: usize = 0;
                    while k < words
                        invariant
                            0 <= k <= words,
                            reader.pos == colbase + 4 * k,
                            reader.len == old(reader).len,
                            reader.ctx == old(reader).ctx,
                            col@.len() == k,
                            forall|i: int|
                                0 <= i < k ==> #[trigger] col@[i]
                                    == vstd::bytes::spec_u32_from_le_bytes(
                                    data.subrange(
                                        j as int * col_stride as int + 4 * i,
                                        j as int * col_stride as int + 4 * i + 4,
                                    ),
                                ),
                        decreases words - k,
                    {
                        let bytes = reader.read(buffer, 4);
                        let x = vstd::bytes::u32_from_le_bytes(bytes.as_slice());
                        col.push(x);
                        proof {
                            assert(data.subrange(
                                j as int * col_stride as int + 4 * k as int,
                                j as int * col_stride as int + 4 * k as int + 4,
                            ) =~= buffer.contents().subrange(
                                colbase + 4 * k as int,
                                colbase + 4 * k as int + 4,
                            ));
                        }
                        k = k + 1;
                    }
                    reader.advance((col_stride - 4 * *r) as usize);
                    cols.push(col);
                    j = j + 1;
                }
                ShaderValue::Matrix(cols)
            },
            ShaderType::Array { element, n } => {
                proof {
                    lemma_wf_alignment(**element);
                    lemma_wf_min_size(**element);
                    lemma_round_up_properties(spec_min_size(**element), spec_alignment(**element));
                    assert(spec_stride(**element) * (*n as int) == spec_min_size(*t))
                        by (nonlinear_arith)
                        requires
                            spec_min_size(*t) == spec_round_up(
                                spec_min_size(**element),
                                spec_alignment(**element),
                            ) * (*n as int),
                            spec_stride(**element) == spec_round_up(
                                spec_min_size(**element),
                                spec_alignment(**element),
                            ),
                    ;
                    assert((*n as int) * 1 <= (*n as int) * spec_stride(**element))
                        by (nonlinear_arith)
                        requires
                            spec_stride(**element) >= 1,
                            *n as int >= 0,
                    ;
                    assert((*n as int) * spec_stride(**element) == spec_stride(**element) * (
                    *n as int)) by (nonlinear_arith);
                    assert(spec_stride(**element) <= spec_stride(**element) * (*n as int))
                        by (nonlinear_arith)
                        requires
                            *n as int >= 1,
                            spec_stride(**element) >= 0,
                    ;
                }
                let count = *n as usize;
                let vs = read_elements(element, count, reader, buffer);
                proof {
                    let stride_s = spec_stride(**element);
                    assert forall|jj: int| 0 <= jj < vs@.len() implies
                        crate::encoding::spec_decodes(
                            **element,
                            data.skip(jj * stride_s),
                            old(reader).ctx.rts_array_max_el_to_read,
                            #[trigger] vs@[jj],
                        ) by {
                        assert(0 <= jj * stride_s <= jj * stride_s + stride_s <= count as int
                            * stride_s) by (nonlinear_arith)
                            requires
                                0 <= jj < count as int,
                                stride_s >= 1,
                        ;
                        assert(count as int * stride_s == stride_s * (count as int))
                            by (nonlinear_arith);
                        crate::encoding::lemma_skip_skip(
                            buffer.contents(),
                            base,
                            jj * stride_s,
                        );
                    }
                }
                ShaderValue::Array(vs)
            },
            ShaderType::RuntimeArray { element } => {
                proof {
                    lemma_wf_alignment(**element);
                    lemma_wf_min_size(**element);
                    lemma_round_up_properties(spec_min_size(**element), spec_alignment(**element));
                }
                let stride = element_stride(element);
                let remaining = reader.remaining();
                let avail = (remaining as u64) / stride;
                let capn: u64 = match reader.ctx.rts_array_max_el_to_read {
                    Some(cv) => cv as u64,
                    None => 0xffff_ffffu64,
                };
                let count_u64: u64 = if capn <= avail {
                    capn
                } else {
                    avail
                };
                proof {
                    vstd::arithmetic::div_mod::lemma_fundamental_div_mod(
                        remaining as int,
                        spec_stride(**element) as int,
                    );
                    vstd::arithmetic::div_mod::lemma_mod_division_less_than_divisor(
                        remaining as int,
                        spec_stride(**element) as int,
                    );
                    assert(spec_stride(**element) * (avail as int) <= remaining as int);
                    assert(spec_stride(**element) * (count_u64 as int) <= spec_stride(**element)
                        * (avail as int)) by (nonlinear_arith)
                        requires
                            count_u64 as int <= avail as int,
                            spec_stride(**element) >= 0,
                    ;
                    assert(count_u64 as int * 1 <= count_u64 as int * spec_stride(**element))
                        by (nonlinear_arith)
                        requires
                            spec_stride(**element) >= 1,
                            count_u64 as int >= 0,
                    ;
                    assert(count_u64 as int * spec_stride(**element) == spec_stride(**element)
                        * (count_u64 as int)) by (nonlinear_arith);
                }
                let count = count_u64 as usize;
                let vs = read_elements(element, count, reader, buffer);
                proof {
                    assert(data.len() == remaining as int);
                    let stride_s = spec_stride(**element);
                    assert forall|jj: int| 0 <= jj < vs@.len() implies
                        crate::encoding::spec_decodes(
                            **element,
                            data.skip(jj * stride_s),
                            old(reader).ctx.rts_array_max_el_to_read,
                            #[trigger] vs@[jj],
                        ) by {
                        assert(0 <= jj * stride_s <= jj * stride_s + stride_s <= count as int
                            * stride_s) by (nonlinear_arith)
                            requires
                                0 <= jj < count as int,
                                stride_s >= 1,
                        ;
                        assert(count as int * stride_s == stride_s * (count as int))
                            by (nonlinear_arith);
                        crate::encoding::lemma_skip_skip(
                            buffer.contents(),
                            base,
                            jj * stride_s,
                        );
                    }
                }
                ShaderValue::RuntimeArray(vs)
            },
            ShaderType::Struct { fields } => {
                let vs = read_fields(fields, reader, buffer);
                ShaderValue::Struct(vs)
            },
        }
    }

    /// Reads the bytes at the cursor into this value in place. The value
    /// read is the same one `create_from` builds; resident elements of a
    /// runtime-sized tail are replaced rather than reused.
    pub fn read_from<B: BufferRef>(&mut self, t: &ShaderType, reader: &mut Reader, buffer: &B)
        requires
            spec_wf(*t) || *t is ArrayLength,
            spec_matches(*t, *old(self)),
            old(reader).len == buffer.contents().len(),
            old(reader).pos + spec_min_size(*t) <= buffer.contents().len(),
        ensures
            spec_matches(*t, *final(self)),
            crate::encoding::spec_decodes(
                *t,
                buffer.contents().skip(old(reader).pos as int),
                old(reader).ctx.rts_array_max_el_to_read,
                *final(self),
            ),
            final(reader).pos == old(reader).pos + spec_enc_len(*t, *final(self)),
            old(reader).pos + spec_enc_len(*t, *final(self)) <= buffer.contents().len(),
            final(reader).len == old(reader).len,
            final(reader).ctx.rts_array_max_el_to_read == crate::encoding::spec_ctx_after_read(
                *t,
                buffer.contents().skip(old(reader).pos as int),
                old(reader).ctx.rts_array_max_el_to_read,
            ),
    {
        *self = Self::create_from(t, reader, buffer);
    }
}

/// Reads `count` elements one after the other, skipping each element's
/// padding.
#[verifier::loop_isolation(false)]
fn read_elements<B: BufferRef>(
    element: &ShaderType,
    count: usize,
    reader: &mut Reader,
    buffer: &B,
) -> (vs: Vec<ShaderValue>)
    requires
        spec_wf(*element),
        spec_is_fixed_footprint(*element),
        spec_stride(*element) <= u64::MAX,
        old(reader).len == buffer.contents().len(),
        old(reader).pos + spec_stride(*element) * count <= buffer.contents().len(),
    ensures
        vs@.len() == count,
        forall|j: int| 0 <= j < count ==> spec_matches(*element, #[trigger] vs@[j]),
        forall|j: int|
            0 <= j < count ==> crate::encoding::spec_decodes(
                *element,
                buffer.contents().skip(old(reader).pos + j * spec_stride(*element)),
                old(reader).ctx.rts_array_max_el_to_read,
                #[trigger] vs@[j],
            ),
        final(reader).pos == old(reader).pos + spec_stride(*element) * count,
        final(reader).len == old(reader).len,
        final(reader).ctx == old(reader).ctx,
    decreases *element, 1int, 0int,
{
    let ghost base = old(reader).pos as int;
    proof {
        lemma_wf_alignment(*element);
        lemma_wf_min_size(*element);
        lemma_round_up_properties(spec_min_size(*element), spec_alignment(*element));
        buffer.lemma_len_bounded();
        assert(spec_stride(*element) * 0 == 0) by (nonlinear_arith);
    }
    let stride = element_stride(element);
    let el_size = element.min_size();
    let el_padding = stride - el_size;
    let mut vs: Vec<ShaderValue> = Vec::new();
    let mut j: usize = 0;
    while j < count
        invariant
            0 <= j <= count,
            reader.pos == base + spec_stride(*element) * j,
            reader.len == old(reader).len,
            reader.ctx == old(reader).ctx,
            vs@.len() == j,
            forall|i: int| 0 <= i < j ==> spec_matches(*element, #[trigger] vs@[i]),
            forall|i: int|
                0 <= i < j ==> crate::encoding::spec_decodes(
                    *element,
                    buffer.contents().skip(base + i * spec_stride(*element)),
                    old(reader).ctx.rts_array_max_el_to_read,
                    #[trigger] vs@[i],
                ),
        decreases count - j,
    {
        proof {
            assert(spec_stride(*element) * (j as int) + spec_stride(*element) == spec_stride(
                *element,
            ) * (j as int + 1)) by (nonlinear_arith);
            assert(spec_stride(*element) * (j as int + 1) <= spec_stride(*element) * (
            count as int)) by (nonlinear_arith)
                requires
                    j as int + 1 <= count as int,
                    spec_stride(*element) >= 0,
            ;
            assert(!spec_is_runtime_struct(*element));
            crate::encoding::lemma_ctx_after_read_fixed(
                *element,
                buffer.contents().skip(reader.pos as int),
                reader.ctx.rts_array_max_el_to_read,
            );
        }
        let ghost pos_j = reader.pos as int;
        let el = ShaderValue::create_from(element, reader, buffer);
        proof {
            crate::shader_value::lemma_size_bounds(*element, el);
            crate::encoding::lemma_enc_len(*element, el, None);
            assert(spec_enc_len(*element, el) == spec_min_size(*element));
            assert(el_padding as int <= usize::MAX);
            assert(pos_j == base + j as int * spec_stride(*element)) by (nonlinear_arith)
                requires
                    pos_j == base + spec_stride(*element) * (j as int),
            ;
            assert(crate::encoding::spec_decodes(
                *element,
                buffer.contents().skip(base + j as int * spec_stride(*element)),
                old(reader).ctx.rts_array_max_el_to_read,
                el,
            ));
        }
        reader.advance(el_padding as usize);
        vs.push(el);
        j = j + 1;
    }
    vs
}

/// A field's minimum always fits inside its struct's minimum size.
proof fn lemma_field_min_fits(fields: Vec<FieldLayout>, rts: bool, j: int)
    requires
        fields@.len() >= 1,
        rts == (fields@[fields@.len() - 1].ty is RuntimeArray),
        crate::shader_type::spec_fields_wf(fields, rts, fields@.len() as int),
        0 <= j < fields@.len(),
    ensures
        0 <= spec_offset(fields, j),
        spec_offset(fields, j) + spec_min_size(fields@[j].ty) <= spec_struct_min_size(fields),
{
    let n = fields@.len() as int;
    lemma_struct_offsets(fields, rts);
    crate::shader_type::lemma_struct_offsets_bounded(fields, rts);
    lemma_fields_wf_index(fields, rts, n, j);
    crate::shader_type::lemma_field_size(fields@[j], rts, j == n - 1);
    if j < n - 1 {
        crate::shader_type::lemma_offset_step(fields, rts, j + 1);
        crate::shader_type::lemma_offset_chain(fields, rts, j + 1, n - 1);
        lemma_fields_wf_index(fields, rts, n, n - 1);
        crate::shader_type::lemma_field_size(fields@[n - 1], rts, true);
    }
}

/// One field of a struct has been read: its decode carries over from the
/// cap the reader held to the struct's own cap, the read context evolves as
/// the marker index says, and the cursor lands at the start of the next
/// field.
#[verifier::rlimit(100)]
#[verifier::spinoff_prover]
proof fn lemma_read_field_step(
    fields: Vec<FieldLayout>,
    vs: Seq<ShaderValue>,
    el: ShaderValue,
    contents: Seq<u8>,
    base: int,
    c0: Option<u32>,
    ctx_j: Option<u32>,
    ctx_after: Option<u32>,
    j: int,
    rts: bool,
)
    requires
        fields@.len() >= 1,
        rts == (fields@[fields@.len() - 1].ty is RuntimeArray),
        crate::shader_type::spec_fields_wf(fields, rts, fields@.len() as int),
        crate::shader_type::spec_array_length_count(fields, fields@.len() as int) <= 1,
        0 <= j < fields@.len(),
        vs.len() == j,
        forall|i: int| 0 <= i < j ==> spec_matches((#[trigger] fields@[i]).ty, vs[i]),
        spec_matches(fields@[j].ty, el),
        0 <= base,
        contents.len() <= usize::MAX,
        base + spec_struct_min_size(fields) <= contents.len(),
        crate::encoding::spec_decodes(
            fields@[j].ty,
            contents.skip(base + spec_offset(fields, j)),
            ctx_j,
            el,
        ),
        base + spec_offset(fields, j) + spec_enc_len(fields@[j].ty, el) <= contents.len(),
        ctx_after == crate::encoding::spec_ctx_after_read(
            fields@[j].ty,
            contents.skip(base + spec_offset(fields, j)),
            ctx_j,
        ),
        ctx_j == (if crate::encoding::spec_array_length_index(fields, j) >= 0 {
            crate::encoding::spec_struct_dcap(fields, contents.skip(base), c0)
        } else {
            c0
        }),
    ensures
        crate::encoding::spec_decodes(
            fields@[j].ty,
            contents.skip(base).skip(spec_offset(fields, j)),
            crate::encoding::spec_struct_dcap(fields, contents.skip(base), c0),
            el,
        ),
        ctx_after == (if crate::encoding::spec_array_length_index(fields, j + 1) >= 0 {
            crate::encoding::spec_struct_dcap(fields, contents.skip(base), c0)
        } else {
            c0
        }),
        spec_fields_enc_end(fields, vs, j, rts) == spec_offset(fields, j),
        spec_fields_enc_end(fields, vs.push(el), j + 1, rts) == spec_offset(fields, j)
            + spec_enc_len(fields@[j].ty, el) + spec_struct_padding(fields, j),
        0 <= spec_struct_padding(fields, j) <= spec_struct_min_size(fields),
        base + spec_fields_enc_end(fields, vs.push(el), j + 1, rts) <= contents.len(),
{
    let n = fields@.len() as int;
    let data = contents.skip(base);
    let dcap = crate::encoding::spec_struct_dcap(fields, data, c0);
    let al = crate::encoding::spec_array_length_index(fields, n);
    lemma_struct_offsets(fields, rts);
    crate::shader_type::lemma_struct_offsets_bounded(fields, rts);
    crate::shader_type::lemma_fields_alignment(fields, rts, n);
    lemma_fields_wf_index(fields, rts, n, j);
    crate::shader_type::lemma_field_size(fields@[j], rts, j == n - 1);
    crate::encoding::lemma_skip_skip(contents, base, spec_offset(fields, j));
    lemma_enc_fields_len(fields, vs, c0, j, rts);
    lemma_enc_fields_len(fields, vs.push(el), c0, j + 1, rts);
    crate::encoding::lemma_enc_len(fields@[j].ty, el, c0);

    // the decode carries over to the struct's own cap
    if fields@[j].ty is ArrayLength {
        assert(crate::encoding::spec_array_length_index(fields, j) < 0) by {
            if crate::encoding::spec_array_length_index(fields, j) >= 0 {
                let a0 = crate::encoding::spec_array_length_index(fields, j);
                crate::encoding::lemma_array_length_index_is_marker(fields, j);
                crate::shader_type::lemma_array_length_count_nonneg(fields, a0);
                crate::shader_type::lemma_array_length_count_monotone(fields, a0 + 1, j);
                crate::shader_type::lemma_array_length_count_monotone(fields, j + 1, n);
            }
        }
        assert(crate::encoding::spec_array_length_index(fields, j + 1) == j);
        crate::encoding::lemma_array_length_index_stable(fields, j + 1, n);
        assert(al == j);
        assert(data.subrange(spec_offset(fields, al), spec_offset(fields, al) + 4)
            =~= contents.skip(base + spec_offset(fields, j)).subrange(0, 4));
    } else if fields@[j].ty is RuntimeArray {
        assert(j == n - 1);
        if al >= 0 {
            crate::encoding::lemma_array_length_index_is_marker(fields, n);
            assert(al != j);
            crate::encoding::lemma_array_length_index_stable(fields, al + 1, j);
        } else {
            if crate::encoding::spec_array_length_index(fields, j) >= 0 {
                crate::encoding::lemma_array_length_index_stable(fields, j, n);
            }
        }
        assert(ctx_j == dcap);
        assert(crate::encoding::spec_array_length_index(fields, j + 1) == al);
    } else {
        crate::encoding::lemma_decodes_cap_insensitive(
            fields@[j].ty,
            contents.skip(base + spec_offset(fields, j)),
            ctx_j,
            dcap,
            el,
        );
        crate::encoding::lemma_ctx_after_read_fixed(
            fields@[j].ty,
            contents.skip(base + spec_offset(fields, j)),
            ctx_j,
        );
        if al >= 0 {
            crate::encoding::lemma_array_length_index_is_marker(fields, n);
        }
    }

    // the gap after the field lands the cursor on the next field (or the
    // struct's end)
    if j < n - 1 {
        crate::shader_type::lemma_offset_step(fields, rts, j + 1);
        lemma_fields_wf_index(fields, rts, n, j + 1);
        crate::shader_type::lemma_field_size(fields@[j + 1], rts, j + 1 == n - 1);
        assert(spec_enc_len(fields@[j].ty, el) == spec_min_size(fields@[j].ty));
        crate::shader_type::lemma_offset_chain(fields, rts, j + 1, n - 1);
        lemma_fields_wf_index(fields, rts, n, n - 1);
        crate::shader_type::lemma_field_size(fields@[n - 1], rts, true);
        crate::alignment_value::lemma_round_up_properties(
            spec_offset(fields, n - 1) + crate::shader_type::spec_field_size(fields@[n - 1]),
            crate::shader_type::spec_fields_alignment(fields, n),
        );
    } else {
        crate::alignment_value::lemma_round_up_properties(
            spec_offset(fields, n - 1) + crate::shader_type::spec_field_size(fields@[n - 1]),
            crate::shader_type::spec_fields_alignment(fields, n),
        );
        if rts {
            assert(spec_struct_padding(fields, j) == 0);
        } else {
            assert(spec_enc_len(fields@[j].ty, el) == spec_min_size(fields@[j].ty));
        }
    }
}

/// Reads a struct's fields in declaration order, skipping each field's
/// padding; a length marker among them caps the runtime-sized tail.
#[verifier::loop_isolation(false)]
#[verifier::rlimit(100)]
fn read_fields<B: BufferRef>(fields: &Vec<FieldLayout>, reader: &mut Reader, buffer: &B) -> (vs:
    Vec<ShaderValue>)
    requires
        fields@.len() >= 1,
        crate::shader_type::spec_fields_wf(
            *fields,
            fields[fields@.len() - 1].ty is RuntimeArray,
            fields@.len() as int,
        ),
        crate::shader_type::spec_array_length_count(*fields, fields@.len() as int) <= 1,
        spec_struct_min_size(*fields) <= u64::MAX,
        old(reader).len == buffer.contents().len(),
        old(reader).pos + spec_struct_min_size(*fields) <= buffer.contents().len(),
    ensures
        ({
            let data = buffer.contents().skip(old(reader).pos as int);
            let rts = fields@[fields@.len() - 1].ty is RuntimeArray;
            let dcap = crate::encoding::spec_struct_dcap(
                *fields,
                data,
                old(reader).ctx.rts_array_max_el_to_read,
            );
            &&& vs@.len() == fields@.len()
            &&& forall|j: int|
                0 <= j < vs@.len() ==> spec_matches((#[trigger] fields@[j]).ty, vs@[j])
            &&& forall|j: int|
                0 <= j < vs@.len() ==> crate::encoding::spec_decodes(
                    (#[trigger] fields@[j]).ty,
                    data.skip(spec_offset(*fields, j)),
                    dcap,
                    vs@[j],
                )
            &&& final(reader).pos == old(reader).pos + spec_fields_enc_end(
                *fields,
                vs@,
                fields@.len() as int,
                rts,
            )
            &&& old(reader).pos + spec_fields_enc_end(*fields, vs@, fields@.len() as int, rts)
                <= buffer.contents().len()
            &&& final(reader).ctx.rts_array_max_el_to_read == dcap
            &&& final(reader).len == old(reader).len
        }),
    decreases *fields, 1int, 0int,
{
    let ghost base = old(reader).pos as int;
    let ghost data = buffer.contents().skip(base);
    let ghost rts = fields@[fields@.len() - 1].ty is RuntimeArray;
    let ghost c0 = old(reader).ctx.rts_array_max_el_to_read;
    let ghost dcap = crate::encoding::spec_struct_dcap(*fields, data, c0);
    let n = fields.len();
    proof {
        buffer.lemma_len_bounded();
        lemma_struct_offsets(*fields, rts);
    }
    let layout = struct_layout(fields);
    let mut vs: Vec<ShaderValue> = Vec::new();
    let mut j: usize = 0;
    while j < n
        invariant
            0 <= j <= n,
            vs@.len() == j,
            reader.len == old(reader).len,
            reader.pos == base + spec_fields_enc_end(*fields, vs@, j as int, rts),
            base + spec_fields_enc_end(*fields, vs@, j as int, rts) <= buffer.contents().len(),
            reader.ctx.rts_array_max_el_to_read == (
            if crate::encoding::spec_array_length_index(*fields, j as int) >= 0 {
                dcap
            } else {
                c0
            }),
            forall|i: int| 0 <= i < j ==> spec_matches((#[trigger] fields@[i]).ty, vs@[i]),
            forall|i: int|
                0 <= i < j ==> crate::encoding::spec_decodes(
                    (#[trigger] fields@[i]).ty,
                    data.skip(spec_offset(*fields, i)),
                    dcap,
                    vs@[i],
                ),
        decreases n - j,
    {
        proof {
            lemma_fields_wf_index(*fields, rts, n as int, j as int);
            lemma_field_min_fits(*fields, rts, j as int);
            lemma_enc_fields_len(*fields, vs@, c0, j as int, rts);
        }
        let ghost pos_j = reader.pos as int;
        let ghost ctx_j = reader.ctx.rts_array_max_el_to_read;
        let el = ShaderValue::create_from(&fields[j].ty, reader, buffer);
        proof {
            lemma_read_field_step(
                *fields,
                vs@,
                el,
                buffer.contents(),
                base,
                c0,
                ctx_j,
                reader.ctx.rts_array_max_el_to_read,
                j as int,
                rts,
            );
        }
        let pad = layout.1[j];
        proof {
            assert(pad as int == spec_struct_padding(*fields, j as int));
            assert(spec_struct_min_size(*fields) <= usize::MAX);
        }
        reader.advance(pad as usize);
        vs.push(el);
        j = j + 1;
    }
    vs
}

impl ShaderValue {
    /// The bulk half of the fast path: packs this value's bytes into one
    /// contiguous little-endian run. Sound only for shapes whose layout
    /// records no internal padding anywhere; the run then equals, byte for
    /// byte, what the recursive writer lays down. `ctx` is the element
    /// count a length marker is to carry.
    #[verifier::loop_isolation(false)]
    #[verifier::rlimit(100)]
    #[verifier::spinoff_prover]
    pub fn encode_packed(&self, t: &ShaderType, ctx: Option<u32>, out: &mut Vec<u8>)
        requires
            spec_wf(*t) || *t is ArrayLength,
            spec_matches(*t, *self),
            !crate::shader_type::spec_has_internal_padding(*t),
            *t is ArrayLength ==> ctx is Some,
            old(out)@.len() + spec_enc_len(*t, *self) <= usize::MAX,
        ensures
            final(out)@.len() == old(out)@.len() + spec_enc_len(*t, *self),
            final(out)@.subrange(0, old(out)@.len() as int) == old(out)@,
            forall|i: int|
                0 <= i < spec_enc_len(*t, *self) ==> #[trigger] spec_enc(*t, *self, ctx)[i]
                    == Some(final(out)@[old(out)@.len() + i]),
        decreases *self, 0int, 0int,
    {
        proof {
            lemma_enc_len(*t, *self, ctx);
        }
        match (t, self) {
            (ShaderType::Scalar, ShaderValue::Scalar(x)) => {
                let mut bytes = vstd::bytes::u32_to_le_bytes(*x);
                out.append(&mut bytes);
            },
            (ShaderType::ArrayLength, ShaderValue::ArrayLength) => {
                let mut bytes = vstd::bytes::u32_to_le_bytes(ctx.unwrap());
                out.append(&mut bytes);
            },
            (ShaderType::Vector { n: _ }, ShaderValue::Vector(els)) => {
                let m = els.len();
                let mut j: usize = 0;
                while j < m
                    invariant
                        0 <= j <= m,
                        out@.len() == old(out)@.len() + 4 * j,
                        out@.subrange(0, old(out)@.len() as int) == old(out)@,
                        forall|i: int|
                            0 <= i < 4 * j ==> #[trigger] spec_words(els@)[i] == Some(
                                out@[old(out)@.len() + i],
                            ),
                    decreases m - j,
                {
                    let mut bytes = vstd::bytes::u32_to_le_bytes(els[j]);
                    out.append(&mut bytes);
                    proof {
                        assert forall|i: int|
                            0 <= i < 4 * (j + 1) implies #[trigger] spec_words(els@)[i] == Some(
                            out@[old(out)@.len() + i],
                        ) by {
                            if i >= 4 * j {
                                assert(i / 4 == j as int && i % 4 == i - 4 * j)
                                    by (nonlinear_arith)
                                    requires
                                        4 * j <= i < 4 * (j + 1),
                                ;
                            }
                        }
                    }
                    j = j + 1;
                }
            },
            (ShaderType::Matrix { c: _, r }, ShaderValue::Matrix(cols)) => {
                let ghost rr = *r as int;
                let ghost cs = spec_round_up(4 * rr, spec_next_power_of_two(4 * rr));
                proof {
                    crate::shader_type::lemma_next_power_of_two(4 * rr);
                    lemma_round_up_properties(4 * rr, spec_next_power_of_two(4 * rr));
                    assert(cs == 4 * rr);
                    assert((cols@.len() as int) * cs == spec_enc_len(*t, *self))
                        by (nonlinear_arith)
                        requires
                            spec_enc_len(*t, *self) == (cols@.len() as int) * cs,
                    ;
                }
                let m = cols.len();
                let mut j: usize = 0;
                while j < m
                    invariant
                        0 <= j <= m,
                        out@.len() == old(out)@.len() + j * cs,
                        out@.subrange(0, old(out)@.len() as int) == old(out)@,
                        forall|i: int|
                            0 <= i < j * cs ==> #[trigger] spec_enc(*t, *self, ctx)[i] == Some(
                                out@[old(out)@.len() + i],
                            ),
                    decreases m - j,
                {
                    proof {
                        assert((j as int + 1) * cs == j as int * cs + cs) by (nonlinear_arith);
                        assert((j as int + 1) * cs <= m as int * cs) by (nonlinear_arith)
                            requires
                                j as int + 1 <= m as int,
                                cs >= 0,
                        ;
                    }
                    let col = &cols[j];
                    let words = col.len();
                    let mut k: usize = 0;
                    while k < words
                        invariant
                            0 <= k <= words,
                            out@.len() == old(out)@.len() + j * cs + 4 * k,
                            out@.subrange(0, old(out)@.len() as int) == old(out)@,
                            forall|i: int|
                                0 <= i < j * cs ==> #[trigger] spec_enc(*t, *self, ctx)[i]
                                    == Some(out@[old(out)@.len() + i]),
                            forall|i: int|
                                0 <= i < 4 * k ==> #[trigger] spec_words(col@)[i] == Some(
                                    out@[old(out)@.len() + j * cs + i],
                                ),
                        decreases words - k,
                    {
                        let mut bytes = vstd::bytes::u32_to_le_bytes(col[k]);
                        out.append(&mut bytes);
                        proof {
                            assert forall|i: int|
                                0 <= i < 4 * (k + 1) implies #[trigger] spec_words(col@)[i]
                                == Some(out@[old(out)@.len() + j * cs + i]) by {
                                if i >= 4 * k {
                                    assert(i / 4 == k as int && i % 4 == i - 4 * k)
                                        by (nonlinear_arith)
                                        requires
                                            4 * k <= i < 4 * (k + 1),
                                    ;
                                }
                            }
                        }
                        k = k + 1;
                    }
                    proof {
                        assert forall|i: int|
                            0 <= i < (j + 1) * cs implies #[trigger] spec_enc(*t, *self, ctx)[i]
                            == Some(out@[old(out)@.len() + i]) by {
                            if i >= j * cs {
                                let w = i - j as int * cs;
                                assert(i / cs == j as int && i % cs == w) by (nonlinear_arith)
                                    requires
                                        i == j as int * cs + w,
                                        0 <= w < cs,
                                        cs >= 1,
                                        j >= 0,
                                ;
                                assert(spec_words(col@)[w] == Some(
                                    out@[old(out)@.len() + j * cs + w],
                                ));
                            }
                        }
                    }
                    j = j + 1;
                }
            },
            (ShaderType::Array { element, n: _ }, ShaderValue::Array(vs)) => {
                encode_packed_elements(vs, element, ctx, out);
            },
            (ShaderType::RuntimeArray { element }, ShaderValue::RuntimeArray(vs)) => {
                encode_packed_elements(vs, element, ctx, out);
            },
            (ShaderType::Struct { fields }, ShaderValue::Struct(vs)) => {
                let ghost rts = spec_is_runtime_struct(*t);
                let n = fields.len();
                let is_rts = match &fields[n - 1].ty {
                    ShaderType::RuntimeArray { .. } => true,
                    _ => false,
                };
                let inner_ctx: Option<u32> = if is_rts {
                    match &vs[n - 1] {
                        ShaderValue::RuntimeArray(tvs) => {
                            proof {
                                lemma_fields_wf_index(*fields, rts, n as int, n as int - 1);
                                assert(spec_matches(fields@[n - 1].ty, vs@[n - 1]));
                                assert(tvs@.len() <= u32::MAX);
                                assert(vs@.last() == vs@[n - 1]);
                            }
                            Some(tvs.len() as u32)
                        },
                        _ => {
                            proof {
                                assert(spec_matches(fields@[n - 1].ty, vs@[n - 1]));
                                assert(false);
                            }
                            None
                        },
                    }
                } else {
                    ctx
                };
                proof {
                    lemma_struct_offsets(*fields, rts);
                    lemma_enc_fields_len(*fields, vs@, inner_ctx, 0, rts);
                    lemma_enc_fields_len(*fields, vs@, inner_ctx, n as int, rts);
                    assert(spec_fields_enc_end(*fields, vs@, n as int, rts) == spec_enc_len(
                        *t,
                        *self,
                    ));
                }
                let mut j: usize = 0;
                while j < n
                    invariant
                        0 <= j <= n,
                        out@.len() == old(out)@.len() + spec_fields_enc_end(
                            *fields,
                            vs@,
                            j as int,
                            rts,
                        ),
                        out@.subrange(0, old(out)@.len() as int) == old(out)@,
                        forall|i: int|
                            0 <= i < spec_fields_enc_end(*fields, vs@, j as int, rts)
                                ==> #[trigger] spec_enc_fields(*fields, vs@, inner_ctx, n as int)[i]
                                == Some(out@[old(out)@.len() + i]),
                    decreases n - j,
                {
                    proof {
                        lemma_fields_wf_index(*fields, rts, n as int, j as int);
                        crate::laws::lemma_fields_no_padding_each(*fields, n as int, j as int);
                        lemma_enc_fields_len(*fields, vs@, inner_ctx, j as int, rts);
                        lemma_enc_fields_len(*fields, vs@, inner_ctx, j as int + 1, rts);
                        lemma_enc_len(fields@[j as int].ty, vs@[j as int], inner_ctx);
                        lemma_fields_enc_end_monotone(
                            *fields,
                            vs@,
                            inner_ctx,
                            rts,
                            j as int + 1,
                            n as int,
                        );
                        crate::laws::lemma_enc_fields_slice(
                            *fields,
                            vs@,
                            inner_ctx,
                            rts,
                            j as int,
                            n as int,
                        );
                    }
                    vs[j].encode_packed(&fields[j].ty, inner_ctx, out);
                    proof {
                        let enc_all = spec_enc_fields(*fields, vs@, inner_ctx, n as int);
                        let off_j = spec_offset(*fields, j as int);
                        let len_j = spec_enc_len(fields@[j as int].ty, vs@[j as int]);
                        assert forall|i: int|
                            0 <= i < spec_fields_enc_end(*fields, vs@, j as int + 1, rts)
                                implies #[trigger] enc_all[i] == Some(out@[old(out)@.len() + i]) by {
                            if i >= off_j {
                                assert(enc_all.subrange(off_j, off_j + len_j)[i - off_j]
                                    == enc_all[i]);
                                assert(spec_enc(fields@[j as int].ty, vs@[j as int], inner_ctx)[
                                    i - off_j] == Some(out@[old(out)@.len() + i]));
                            }
                        }
                    }
                    j = j + 1;
                }
                proof {
                    assert(spec_enc(*t, *self, ctx) == spec_enc_fields(
                        *fields,
                        vs@,
                        inner_ctx,
                        n as int,
                    ));
                }
            },
            _ => {
                proof {
                    assert(false);
                }
            },
        }
    }
}

/// Packs the elements of a padding-free array back to back.
#[verifier::loop_isolation(false)]
fn encode_packed_elements(
    vs: &Vec<ShaderValue>,
    element: &ShaderType,
    ctx: Option<u32>,
    out: &mut Vec<u8>,
)
    requires
        spec_wf(*element),
        spec_is_fixed_footprint(*element),
        !crate::shader_type::spec_has_internal_padding(*element),
        spec_stride(*element) == spec_min_size(*element),
        forall|j: int| 0 <= j < vs@.len() ==> spec_matches(*element, #[trigger] vs@[j]),
        old(out)@.len() + spec_stride(*element) * vs@.len() <= usize::MAX,
    ensures
        final(out)@.len() == old(out)@.len() + spec_stride(*element) * vs@.len(),
        final(out)@.subrange(0, old(out)@.len() as int) == old(out)@,
        forall|i: int|
            0 <= i < spec_stride(*element) * vs@.len() ==> #[trigger] spec_enc_elements(
                *element,
                vs@,
                ctx,
                vs@.len() as int,
            )[i] == Some(final(out)@[old(out)@.len() + i]),
    decreases *vs, 0int, 0int,
{
    let ghost stride = spec_stride(*element);
    proof {
        lemma_wf_alignment(*element);
        lemma_wf_min_size(*element);
        lemma_round_up_properties(spec_min_size(*element), spec_alignment(*element));
        assert(stride * 0 == 0) by (nonlinear_arith);
        lemma_enc_elements_len(*element, vs@, ctx, vs@.len() as int);
    }
    let m = vs.len();
    let mut j: usize = 0;
    while j < m
        invariant
            0 <= j <= m,
            out@.len() == old(out)@.len() + stride * j,
            out@.subrange(0, old(out)@.len() as int) == old(out)@,
            forall|i: int|
                0 <= i < stride * j ==> #[trigger] spec_enc_elements(
                    *element,
                    vs@,
                    ctx,
                    vs@.len() as int,
                )[i] == Some(out@[old(out)@.len() + i]),
        decreases m - j,
    {
        proof {
            lemma_enc_elements_len(*element, vs@, ctx, j as int);
            lemma_enc_len(*element, vs@[j as int], ctx);
            crate::shader_value::lemma_size_bounds(*element, vs@[j as int]);
            assert(stride * (j as int) + stride == stride * (j as int + 1)) by (nonlinear_arith);
            assert(stride * (j as int + 1) <= stride * (m as int)) by (nonlinear_arith)
                requires
                    j as int + 1 <= m as int,
                    stride >= 0,
            ;
            assert(!spec_is_runtime_struct(*element));
            crate::laws::lemma_enc_elements_slice(*element, vs@, ctx, j as int, m as int);
        }
        vs[j].encode_packed(element, ctx, out);
        proof {
            let enc_all = spec_enc_elements(*element, vs@, ctx, vs@.len() as int);
            let off_j = stride * (j as int);
            assert forall|i: int|
                0 <= i < stride * (j + 1) implies #[trigger] enc_all[i] == Some(
                out@[old(out)@.len() + i],
            ) by {
                if i >= off_j {
                    assert(enc_all.subrange(off_j, off_j + stride)[i - off_j] == enc_all[i]);
                    assert(spec_enc(*element, vs@[j as int], ctx)[i - off_j] == Some(
                        out@[old(out)@.len() + i],
                    ));
                }
            }
        }
        j = j + 1;
    }
}

/// Writes the elements of an array one after the other, each followed by
/// its element padding.
#[verifier::loop_isolation(false)]
fn write_elements<B: BufferMut>(
    vs: &Vec<ShaderValue>,
    element: &ShaderType,
    writer: &mut Writer,
    buffer: &mut B,
)
    requires
        spec_wf(*element),
        spec_is_fixed_footprint(*element),
        spec_stride(*element) <= u64::MAX,
        forall|j: int| 0 <= j < vs@.len() ==> spec_matches(*element, #[trigger] vs@[j]),
        old(writer).pos + spec_stride(*element) * vs@.len() <= old(buffer).contents().len(),
    ensures
        final(buffer).contents() == spec_splice(
            old(buffer).contents(),
            old(writer).pos as int,
            spec_enc_elements(
                *element,
                vs@,
                old(writer).ctx.rts_array_length,
                vs@.len() as int,
            ),
        ),
        final(writer).pos == old(writer).pos + spec_stride(*element) * vs@.len(),
        final(writer).ctx == old(writer).ctx,
    decreases *vs, 0int, 0int,
{
    let ghost base = old(writer).pos as int;
    let ghost s0 = old(buffer).contents();
    let ghost ctx0 = old(writer).ctx.rts_array_length;
    proof {
        lemma_wf_alignment(*element);
        lemma_wf_min_size(*element);
        lemma_round_up_properties(spec_min_size(*element), spec_alignment(*element));
        crate::encoding::lemma_splice_empty(s0, base);
        assert(spec_stride(*element) * 0 == 0) by (nonlinear_arith);
        old(buffer).lemma_len_bounded();
    }
    let stride = element_stride(element);
    let el_size = element.min_size();
    let el_padding = stride - el_size;
    let m = vs.len();
    let mut j: usize = 0;
    while j < m
        invariant
            0 <= j <= m,
            writer.pos == base + spec_stride(*element) * j,
            writer.ctx == old(writer).ctx,
            buffer.contents().len() == s0.len(),
            buffer.contents() == spec_splice(
                s0,
                base,
                spec_enc_elements(*element, vs@, ctx0, j as int),
            ),
        decreases m - j,
    {
        proof {
            lemma_enc_elements_len(*element, vs@, ctx0, j as int);
            lemma_enc_len(*element, vs@[j as int], ctx0);
            crate::shader_value::lemma_size_bounds(*element, vs@[j as int]);
            assert(spec_stride(*element) * (j as int) + spec_stride(*element) == spec_stride(
                *element,
            ) * (j as int + 1)) by (nonlinear_arith);
            assert(spec_stride(*element) * (j as int + 1) <= spec_stride(*element) * (m as int))
                by (nonlinear_arith)
                requires
                    j as int + 1 <= m as int,
                    spec_stride(*element) >= 0,
            ;
            assert(!spec_is_runtime_struct(*element));
        }
        let ghost pos_j = writer.pos as int;
        vs[j].write_into(element, writer, buffer);
        proof {
            lemma_splice_append(
                s0,
                base,
                spec_enc_elements(*element, vs@, ctx0, j as int),
                spec_enc(*element, vs@[j as int], ctx0),
            );
            assert(el_padding as int <= usize::MAX);
        }
        writer.advance(el_padding as usize);
        proof {
            lemma_splice_drop_padding(
                s0,
                base,
                spec_enc_elements(*element, vs@, ctx0, j as int) + spec_enc(
                    *element,
                    vs@[j as int],
                    ctx0,
                ),
                el_padding as int,
            );
            assert(spec_enc_elements(*element, vs@, ctx0, j as int + 1) =~= (spec_enc_elements(
                *element,
                vs@,
                ctx0,
                j as int,
            ) + spec_enc(*element, vs@[j as int], ctx0)) + spec_padding_bytes(el_padding as int));
        }
        j = j + 1;
    }
}

} // verus!
