//! Buffer wrappers: fixed-offset and dynamic-offset, for the storage and
//! the uniform address space.

use vstd::prelude::*;

verus! {

use crate::alignment_value::{
    spec_is_power_of_two, spec_round_up, AlignmentValue, lemma_power_of_two_pos,
    lemma_round_up_properties,
};
use crate::encoding::{spec_enc, spec_enc_len, spec_splice};
use crate::rw::{spec_enlarged, BufferMut, BufferRef, Error, Reader, Writer};
use crate::serialize::lemma_enc_len_le_size;
use crate::shader_type::{spec_alignment, spec_is_uniform_compat, spec_min_size, spec_wf, ShaderType};
use crate::shader_value::{spec_matches, spec_size, ShaderValue};

/// The alignment a member is spaced by when a struct is assembled piece by
/// piece in the uniform address space: composite members move up to the
/// 16-byte uniform minimum.
pub open spec fn spec_uniform_member_alignment(t: ShaderType) -> int {
    if crate::shader_type::spec_has_uniform_min_alignment(t) && spec_alignment(t) < 16 {
        16
    } else {
        spec_alignment(t)
    }
}

/// What a container holds after one value has been written at `at`: the
/// container zero-extended to make room, with the value's bytes laid over
/// it and its padding gaps left untouched.
pub open spec fn spec_written(s: Seq<u8>, at: int, t: ShaderType, v: ShaderValue) -> Seq<u8> {
    spec_splice(spec_enlarged(s, at + spec_size(t, v)), at, spec_enc(t, v, None))
}

/// The wire size of a value just read, clamped to `u64`, computed from the
/// bytes the read consumed.
fn clamped_size(ty: &ShaderType, v: &ShaderValue, consumed: usize) -> (r: u64)
    requires
        spec_wf(*ty),
        spec_matches(*ty, *v),
        consumed as int == spec_enc_len(*ty, *v),
    ensures
        spec_size(*ty, *v) <= u64::MAX ==> r as int == spec_size(*ty, *v),
        spec_size(*ty, *v) > u64::MAX ==> r == u64::MAX,
{
    proof {
        crate::serialize::lemma_size_from_enc_len(*ty, *v);
        crate::shader_type::lemma_wf_alignment(*ty);
        crate::shader_type::lemma_wf_min_size(*ty);
        lemma_power_of_two_pos(spec_alignment(*ty));
    }
    let min = ty.min_size();
    if (consumed as u64) <= min {
        min
    } else {
        let a = AlignmentValue::new(ty.alignment());
        let pnf = a.padding_needed_for(consumed as u64);
        proof {
            lemma_round_up_properties(consumed as int, spec_alignment(*ty));
        }
        if pnf <= u64::MAX - (consumed as u64) {
            consumed as u64 + pnf
        } else {
            u64::MAX
        }
    }
}

/// Storage buffer wrapper facilitating RW operations at offset zero.
pub struct StorageBuffer<B> {
    inner: B,
}

impl<B> StorageBuffer<B> {
    /// The buffer the wrapper holds.
    pub closed spec fn spec_inner(&self) -> &B {
        &self.inner
    }

    pub fn new(buffer: B) -> (r: Self)
        ensures
            r.spec_inner() == buffer,
    {
        Self { inner: buffer }
    }

    pub fn into_inner(self) -> (r: B)
        ensures
            r == self.spec_inner(),
    {
        self.inner
    }
}

impl<B: BufferRef> StorageBuffer<B> {
    /// The bytes the wrapped container holds.
    pub open spec fn contents(&self) -> Seq<u8> {
        self.spec_inner().contents()
    }

    /// Reads a value of shape `ty` from offset zero into `value`. Fails
    /// with `BufferTooSmall` exactly when the container holds fewer than
    /// `min_size` bytes.
    pub fn read(&self, ty: &ShaderType, value: &mut ShaderValue) -> (r: Result<(), Error>)
        requires
            spec_wf(*ty),
            spec_matches(*ty, *old(value)),
        ensures
            r is Ok <==> spec_min_size(*ty) <= self.contents().len(),
            r is Ok ==> spec_matches(*ty, *final(value)) && crate::encoding::spec_decodes(
                *ty,
                self.contents(),
                None,
                *final(value),
            ),
            r matches Err(e) ==> *final(value) == *old(value) && e == (Error::BufferTooSmall {
                expected: spec_min_size(*ty) as u64,
                found: self.contents().len() as u64,
            }),
    {
        let mut reader = match Reader::new(ty, &self.inner, 0) {
            Ok(rd) => rd,
            Err(e) => {
                return Err(e);
            },
        };
        value.read_from(ty, &mut reader, &self.inner);
        proof {
            assert(self.contents().skip(0) =~= self.contents());
        }
        Ok(())
    }

    /// Builds a value of shape `ty` from offset zero. Fails with
    /// `BufferTooSmall` exactly when the container holds fewer than
    /// `min_size` bytes.
    pub fn create(&self, ty: &ShaderType) -> (r: Result<ShaderValue, Error>)
        requires
            spec_wf(*ty),
        ensures
            r is Ok <==> spec_min_size(*ty) <= self.contents().len(),
            r matches Ok(v) ==> spec_matches(*ty, v) && crate::encoding::spec_decodes(
                *ty,
                self.contents(),
                None,
                v,
            ),
            r matches Err(e) ==> e == (Error::BufferTooSmall {
                expected: spec_min_size(*ty) as u64,
                found: self.contents().len() as u64,
            }),
    {
        let mut reader = match Reader::new(ty, &self.inner, 0) {
            Ok(rd) => rd,
            Err(e) => {
                return Err(e);
            },
        };
        let v = ShaderValue::create_from(ty, &mut reader, &self.inner);
        proof {
            assert(self.contents().skip(0) =~= self.contents());
        }
        Ok(v)
    }
}

impl<B: BufferMut> StorageBuffer<B> {
    /// Writes `value` at offset zero, growing a growable container to the
    /// value's size first. A failed write leaves the container untouched.
    pub fn write(&mut self, ty: &ShaderType, value: &ShaderValue) -> (r: Result<(), Error>)
        requires
            spec_wf(*ty),
            spec_matches(*ty, *value),
            spec_size(*ty, *value) <= usize::MAX,
        ensures
            r is Ok ==> final(self).contents() == spec_written(
                old(self).contents(),
                0,
                *ty,
                *value,
            ),
            r matches Err(e) ==> final(self).contents() == old(self).contents() && spec_size(
                *ty,
                *value,
            ) > old(self).contents().len() && e == (Error::BufferTooSmall {
                expected: spec_size(*ty, *value) as u64,
                found: old(self).contents().len() as u64,
            }),
            spec_size(*ty, *value) <= old(self).contents().len() ==> r is Ok,
            !B::growable() && spec_size(*ty, *value) > old(self).contents().len() ==> r is Err,
    {
        proof {
            lemma_enc_len_le_size(*ty, *value);
        }
        let mut writer = match Writer::new(ty, value, &mut self.inner, 0) {
            Ok(w) => w,
            Err(e) => {
                return Err(e);
            },
        };
        value.write_into(ty, &mut writer, &mut self.inner);
        Ok(())
    }
}

/// Uniform buffer wrapper: the same operations, for shapes that satisfy
/// the uniform address space rules. The rules are demanded up front, as
/// preconditions; a caller outside verified code checks them first with
/// `ShaderType::assert_uniform_compat`.
pub struct UniformBuffer<B> {
    inner: StorageBuffer<B>,
}

impl<B> UniformBuffer<B> {
    pub fn new(buffer: B) -> (r: Self)
        ensures
            r.spec_inner() == buffer,
    {
        Self { inner: StorageBuffer::new(buffer) }
    }

    /// The buffer the wrapper holds.
    pub closed spec fn spec_inner(&self) -> &B {
        self.inner.spec_inner()
    }

    pub fn into_inner(self) -> (r: B)
        ensures
            r == self.spec_inner(),
    {
        self.inner.into_inner()
    }
}

impl<B: BufferRef> UniformBuffer<B> {
    /// The bytes the wrapped container holds.
    pub open spec fn contents(&self) -> Seq<u8> {
        self.spec_inner().contents()
    }

    /// As `StorageBuffer::read`, for a uniform-compatible shape.
    pub fn read(&self, ty: &ShaderType, value: &mut ShaderValue) -> (r: Result<(), Error>)
        requires
            spec_wf(*ty),
            spec_is_uniform_compat(*ty),
            spec_matches(*ty, *old(value)),
        ensures
            r is Ok <==> spec_min_size(*ty) <= self.contents().len(),
            r is Ok ==> spec_matches(*ty, *final(value)) && crate::encoding::spec_decodes(
                *ty,
                self.contents(),
                None,
                *final(value),
            ),
            r matches Err(e) ==> *final(value) == *old(value) && e == (Error::BufferTooSmall {
                expected: spec_min_size(*ty) as u64,
                found: self.contents().len() as u64,
            }),
    {
        self.inner.read(ty, value)
    }

    /// As `StorageBuffer::create`, for a uniform-compatible shape.
    pub fn create(&self, ty: &ShaderType) -> (r: Result<ShaderValue, Error>)
        requires
            spec_wf(*ty),
            spec_is_uniform_compat(*ty),
        ensures
            r is Ok <==> spec_min_size(*ty) <= self.contents().len(),
            r matches Ok(v) ==> spec_matches(*ty, v) && crate::encoding::spec_decodes(
                *ty,
                self.contents(),
                None,
                v,
            ),
            r matches Err(e) ==> e == (Error::BufferTooSmall {
                expected: spec_min_size(*ty) as u64,
                found: self.contents().len() as u64,
            }),
    {
        self.inner.create(ty)
    }
}

impl<B: BufferMut> UniformBuffer<B> {
    /// As `StorageBuffer::write`, for a uniform-compatible shape.
    pub fn write(&mut self, ty: &ShaderType, value: &ShaderValue) -> (r: Result<(), Error>)
        requires
            spec_wf(*ty),
            spec_is_uniform_compat(*ty),
            spec_matches(*ty, *value),
            spec_size(*ty, *value) <= usize::MAX,
        ensures
            r is Ok ==> final(self).contents() == spec_written(
                old(self).contents(),
                0,
                *ty,
                *value,
            ),
            r matches Err(e) ==> final(self).contents() == old(self).contents() && spec_size(
                *ty,
                *value,
            ) > old(self).contents().len() && e == (Error::BufferTooSmall {
                expected: spec_size(*ty, *value) as u64,
                found: old(self).contents().len() as u64,
            }),
            spec_size(*ty, *value) <= old(self).contents().len() ==> r is Ok,
            !B::growable() && spec_size(*ty, *value) > old(self).contents().len() ==> r is Err,
    {
        self.inner.write(ty, value)
    }
}

/// Dynamic storage buffer wrapper: repeated operations on one container at
/// a running offset, spaced by a binding alignment.
pub struct DynamicStorageBuffer<B> {
    inner: B,
    alignment: AlignmentValue,
    offset: usize,
}

impl<B> DynamicStorageBuffer<B> {
    /// The buffer the wrapper holds.
    pub closed spec fn spec_inner(&self) -> &B {
        &self.inner
    }

    /// The binding alignment the wrapper was made with.
    pub closed spec fn spec_alignment(&self) -> AlignmentValue {
        self.alignment
    }

    /// The running offset.
    pub closed spec fn spec_offset(&self) -> usize {
        self.offset
    }

    /// The running offset, as callers observe it.
    pub fn offset(&self) -> (r: u64)
        ensures
            r == self.spec_offset(),
    {
        self.offset as u64
    }

    /// Validity: the binding alignment is a power of two of at least 32
    /// bytes.
    pub open spec fn wf(&self) -> bool {
        self.spec_alignment().wf() && self.spec_alignment().spec_get() >= 32
    }

    /// A new dynamic storage buffer wrapper with an alignment of 256 (the
    /// WebGPU default).
    pub fn new(buffer: B) -> (r: Self)
        ensures
            r.spec_inner() == buffer,
            r.spec_offset() == 0,
            r.wf(),
            r.spec_alignment().spec_get() == 256,
    {
        proof {
            reveal_with_fuel(spec_is_power_of_two, 10);
        }
        Self::new_with_alignment(buffer, 256)
    }

    /// A new dynamic storage buffer wrapper with the given alignment; an
    /// alignment under 32 bytes or not a power of two is a schema-time
    /// error and is ruled out up front.
    pub fn new_with_alignment(buffer: B, alignment: u64) -> (r: Self)
        requires
            spec_is_power_of_two(alignment as int),
            alignment >= 32,
        ensures
            r.spec_inner() == buffer,
            r.spec_offset() == 0,
            r.wf(),
            r.spec_alignment().spec_get() == alignment,
    {
        Self { inner: buffer, alignment: AlignmentValue::new(alignment), offset: 0 }
    }

    /// Moves the running offset to an absolute position, which must already
    /// sit on the binding alignment.
    pub fn set_offset(&mut self, offset: u64)
        requires
            old(self).wf(),
            offset as int % old(self).spec_alignment().spec_get() as int == 0,
            offset <= usize::MAX,
        ensures
            final(self).spec_offset() == offset,
            final(self).spec_inner() == old(self).spec_inner(),
            final(self).spec_alignment() == old(self).spec_alignment(),
    {
        self.offset = offset as usize;
    }

    pub fn into_inner(self) -> (r: B)
        ensures
            r == self.spec_inner(),
    {
        self.inner
    }
}

impl<B: BufferRef> DynamicStorageBuffer<B> {
    /// The bytes the wrapped container holds.
    pub open spec fn contents(&self) -> Seq<u8> {
        self.spec_inner().contents()
    }

    /// Builds a value of shape `ty` at the running offset, then advances
    /// the offset by the value's exact size (clamped to the address range).
    pub fn create(&mut self, ty: &ShaderType) -> (r: Result<ShaderValue, Error>)
        requires
            spec_wf(*ty),
        ensures
            final(self).contents() == old(self).contents(),
            final(self).spec_alignment() == old(self).spec_alignment(),
            r is Ok <==> old(self).spec_offset() + spec_min_size(*ty) <= old(self).contents().len(),
            r matches Ok(v) ==> spec_matches(*ty, v) && crate::encoding::spec_decodes(
                *ty,
                old(self).contents().skip(old(self).spec_offset() as int),
                None,
                v,
            ) && final(self).spec_offset() == (if old(self).spec_offset() + spec_size(*ty, v) <= usize::MAX {
                old(self).spec_offset() + spec_size(*ty, v)
            } else {
                usize::MAX as int
            }),
            r matches Err(e) ==> final(self).spec_offset() == old(self).spec_offset() && e
                == (Error::BufferTooSmall {
                expected: spec_min_size(*ty) as u64,
                found: (if old(self).contents().len() >= old(self).spec_offset() {
                    old(self).contents().len() - old(self).spec_offset()
                } else {
                    0
                }) as u64,
            }),
    {
        let mut reader = match Reader::new(ty, &self.inner, self.offset) {
            Ok(rd) => rd,
            Err(e) => {
                return Err(e);
            },
        };
        let start = self.offset;
        let v = ShaderValue::create_from(ty, &mut reader, &self.inner);
        proof {
            crate::serialize::lemma_enc_len_le_size(*ty, v);
            crate::shader_value::lemma_size_bounds(*ty, v);
        }
        let consumed = reader.pos - start;
        let size = clamped_size(ty, &v, consumed);
        if size <= (usize::MAX - self.offset) as u64 {
            self.offset = self.offset + size as usize;
        } else {
            self.offset = usize::MAX;
        }
        Ok(v)
    }

    /// Reads a value of shape `ty` at the running offset into `value`, then
    /// advances the offset by the value's exact size (clamped to the
    /// address range).
    pub fn read(&mut self, ty: &ShaderType, value: &mut ShaderValue) -> (r: Result<(), Error>)
        requires
            spec_wf(*ty),
            spec_matches(*ty, *old(value)),
        ensures
            final(self).contents() == old(self).contents(),
            final(self).spec_alignment() == old(self).spec_alignment(),
            r is Ok <==> old(self).spec_offset() + spec_min_size(*ty) <= old(self).contents().len(),
            r is Ok ==> spec_matches(*ty, *final(value)) && crate::encoding::spec_decodes(
                *ty,
                old(self).contents().skip(old(self).spec_offset() as int),
                None,
                *final(value),
            ) && final(self).spec_offset() == (if old(self).spec_offset() + spec_size(*ty, *final(value))
                <= usize::MAX {
                old(self).spec_offset() + spec_size(*ty, *final(value))
            } else {
                usize::MAX as int
            }),
            r matches Err(e) ==> *final(value) == *old(value) && final(self).spec_offset() == old(self).spec_offset() && e == (Error::BufferTooSmall {
                expected: spec_min_size(*ty) as u64,
                found: (if old(self).contents().len() >= old(self).spec_offset() {
                    old(self).contents().len() - old(self).spec_offset()
                } else {
                    0
                }) as u64,
            }),
    {
        match self.create(ty) {
            Ok(v) => {
                *value = v;
                Ok(())
            },
            Err(e) => Err(e),
        }
    }
}

impl<B: BufferMut> DynamicStorageBuffer<B> {
    /// Writes `value` at the running offset and returns that offset, then
    /// advances the offset by the value's exact size. The caller spaces
    /// successive values with `write_dynamic_struct_break`.
    pub fn write(&mut self, ty: &ShaderType, value: &ShaderValue) -> (r: Result<u64, Error>)
        requires
            spec_wf(*ty),
            spec_matches(*ty, *value),
            old(self).spec_offset() + spec_size(*ty, *value) <= usize::MAX,
        ensures
            final(self).spec_alignment() == old(self).spec_alignment(),
            r matches Ok(o) ==> o == old(self).spec_offset() && final(self).contents() == spec_written(
                old(self).contents(),
                old(self).spec_offset() as int,
                *ty,
                *value,
            ) && final(self).spec_offset() == old(self).spec_offset() + spec_size(*ty, *value),
            r matches Err(e) ==> final(self).contents() == old(self).contents() && final(self).spec_offset() == old(self).spec_offset() && old(self).spec_offset() + spec_size(*ty, *value) > old(self).contents().len() && e == (Error::BufferTooSmall {
                expected: spec_size(*ty, *value) as u64,
                found: (if old(self).contents().len() >= old(self).spec_offset() {
                    old(self).contents().len() - old(self).spec_offset()
                } else {
                    0
                }) as u64,
            }),
            old(self).spec_offset() + spec_size(*ty, *value) <= old(self).contents().len() ==> r is Ok,
            !B::growable() && old(self).spec_offset() + spec_size(*ty, *value) > old(self).contents().len() ==> r is Err,
    {
        proof {
            lemma_enc_len_le_size(*ty, *value);
        }
        let offset = self.offset;
        let mut writer = match Writer::new(ty, value, &mut self.inner, offset) {
            Ok(w) => w,
            Err(e) => {
                return Err(e);
            },
        };
        value.write_into(ty, &mut writer, &mut self.inner);
        let size = ty.size(value);
        self.offset = self.offset + size as usize;
        Ok(offset as u64)
    }

    /// Aligns the running offset up to the member shape's own alignment,
    /// writes `value` there, and returns that offset: one member of a
    /// struct assembled piece by piece.
    pub fn write_single_member(&mut self, ty: &ShaderType, value: &ShaderValue) -> (r: Result<
        u64,
        Error,
    >)
        requires
            spec_wf(*ty),
            spec_matches(*ty, *value),
            spec_round_up(old(self).spec_offset() as int, spec_alignment(*ty)) + spec_size(*ty, *value)
                <= usize::MAX,
        ensures
            final(self).spec_alignment() == old(self).spec_alignment(),
            r matches Ok(o) ==> o as int == spec_round_up(
                old(self).spec_offset() as int,
                spec_alignment(*ty),
            ) && final(self).contents() == spec_written(
                old(self).contents(),
                o as int,
                *ty,
                *value,
            ) && final(self).spec_offset() == o + spec_size(*ty, *value),
            r is Err ==> final(self).contents() == old(self).contents() && final(self).spec_offset()
                == old(self).spec_offset(),
            spec_round_up(old(self).spec_offset() as int, spec_alignment(*ty)) + spec_size(*ty, *value)
                <= old(self).contents().len() ==> r is Ok,
    {
        proof {
            lemma_enc_len_le_size(*ty, *value);
            crate::shader_type::lemma_wf_alignment(*ty);
            lemma_power_of_two_pos(spec_alignment(*ty));
            lemma_round_up_properties(old(self).spec_offset() as int, spec_alignment(*ty));
        }
        let member_alignment = AlignmentValue::new(ty.alignment());
        let offset = member_alignment.round_up(self.offset as u64);
        let mut writer = match Writer::new(ty, value, &mut self.inner, offset as usize) {
            Ok(w) => w,
            Err(e) => {
                return Err(e);
            },
        };
        value.write_into(ty, &mut writer, &mut self.inner);
        let size = ty.size(value);
        self.offset = offset as usize + size as usize;
        Ok(offset)
    }

    /// Rounds the running offset up to the binding alignment without moving
    /// any data: the end of one struct assembled piece by piece.
    pub fn write_dynamic_struct_break(&mut self)
        requires
            old(self).wf(),
            spec_round_up(old(self).spec_offset() as int, old(self).spec_alignment().spec_get() as int)
                <= usize::MAX,
        ensures
            final(self).spec_offset() as int == spec_round_up(
                old(self).spec_offset() as int,
                old(self).spec_alignment().spec_get() as int,
            ),
            final(self).contents() == old(self).contents(),
            final(self).spec_alignment() == old(self).spec_alignment(),
    {
        proof {
            lemma_power_of_two_pos(self.spec_alignment().spec_get() as int);
            lemma_round_up_properties(
                self.offset as int,
                self.spec_alignment().spec_get() as int,
            );
        }
        let a = self.alignment;
        self.offset = a.round_up(self.offset as u64) as usize;
    }
}

impl<B: BufferRef> DynamicStorageBuffer<B> {
    /// Aligns the running offset up to the member shape's own alignment and
    /// builds one member there: the read side of piece-by-piece assembly.
    pub fn read_single_member(&mut self, ty: &ShaderType) -> (r: Result<ShaderValue, Error>)
        requires
            spec_wf(*ty),
            spec_round_up(old(self).spec_offset() as int, spec_alignment(*ty)) <= usize::MAX,
        ensures
            final(self).contents() == old(self).contents(),
            final(self).spec_alignment() == old(self).spec_alignment(),
            r is Ok <==> spec_round_up(old(self).spec_offset() as int, spec_alignment(*ty))
                + spec_min_size(*ty) <= old(self).contents().len(),
            r matches Ok(v) ==> spec_matches(*ty, v) && crate::encoding::spec_decodes(
                *ty,
                old(self).contents().skip(
                    spec_round_up(old(self).spec_offset() as int, spec_alignment(*ty)),
                ),
                None,
                v,
            ) && final(self).spec_offset() == (
            if spec_round_up(old(self).spec_offset() as int, spec_alignment(*ty)) + spec_size(*ty, v)
                <= usize::MAX {
                spec_round_up(old(self).spec_offset() as int, spec_alignment(*ty)) + spec_size(*ty, v)
            } else {
                usize::MAX as int
            }),
            r is Err ==> final(self).spec_offset() == old(self).spec_offset(),
    {
        proof {
            crate::shader_type::lemma_wf_alignment(*ty);
            lemma_power_of_two_pos(spec_alignment(*ty));
            lemma_round_up_properties(old(self).spec_offset() as int, spec_alignment(*ty));
        }
        let member_alignment = AlignmentValue::new(ty.alignment());
        let offset = member_alignment.round_up(self.offset as u64);
        let mut reader = match Reader::new(ty, &self.inner, offset as usize) {
            Ok(rd) => rd,
            Err(e) => {
                return Err(e);
            },
        };
        let v = ShaderValue::create_from(ty, &mut reader, &self.inner);
        proof {
            crate::serialize::lemma_enc_len_le_size(*ty, v);
            crate::shader_value::lemma_size_bounds(*ty, v);
        }
        let consumed = reader.pos - offset as usize;
        let size = clamped_size(ty, &v, consumed);
        if size <= (usize::MAX - offset as usize) as u64 {
            self.offset = offset as usize + size as usize;
        } else {
            self.offset = usize::MAX;
        }
        Ok(v)
    }

    /// Rounds the running offset up to the binding alignment without moving
    /// any data: the read side of a struct break.
    pub fn read_dynamic_struct_break(&mut self)
        requires
            old(self).wf(),
            spec_round_up(old(self).spec_offset() as int, old(self).spec_alignment().spec_get() as int)
                <= usize::MAX,
        ensures
            final(self).spec_offset() as int == spec_round_up(
                old(self).spec_offset() as int,
                old(self).spec_alignment().spec_get() as int,
            ),
            final(self).contents() == old(self).contents(),
            final(self).spec_alignment() == old(self).spec_alignment(),
    {
        proof {
            lemma_power_of_two_pos(self.spec_alignment().spec_get() as int);
            lemma_round_up_properties(
                self.offset as int,
                self.spec_alignment().spec_get() as int,
            );
        }
        let a = self.alignment;
        self.offset = a.round_up(self.offset as u64) as usize;
    }
}

/// Dynamic uniform buffer wrapper: the dynamic operations, for shapes that
/// satisfy the uniform address space rules.
pub struct DynamicUniformBuffer<B> {
    inner: DynamicStorageBuffer<B>,
}

impl<B> DynamicUniformBuffer<B> {
    /// The buffer the wrapper holds.
    pub closed spec fn spec_inner(&self) -> &B {
        self.inner.spec_inner()
    }

    /// The binding alignment the wrapper was made with.
    pub closed spec fn spec_alignment(&self) -> AlignmentValue {
        self.inner.spec_alignment()
    }

    /// The running offset.
    pub open spec fn spec_offset(&self) -> usize {
        self.spec_dynamic().spec_offset()
    }

    /// The wrapped dynamic storage buffer.
    pub closed spec fn spec_dynamic(&self) -> &DynamicStorageBuffer<B> {
        &self.inner
    }

    pub open spec fn wf(&self) -> bool {
        self.spec_dynamic().wf()
    }

    /// A new dynamic uniform buffer wrapper with an alignment of 256 (the
    /// WebGPU default).
    pub fn new(buffer: B) -> (r: Self)
        ensures
            r.spec_inner() == buffer,
            r.spec_offset() == 0,
            r.wf(),
            r.spec_alignment().spec_get() == 256,
    {
        Self { inner: DynamicStorageBuffer::new(buffer) }
    }

    /// A new dynamic uniform buffer wrapper with the given alignment; an
    /// alignment under 32 bytes or not a power of two is a schema-time
    /// error and is ruled out up front.
    pub fn new_with_alignment(buffer: B, alignment: u64) -> (r: Self)
        requires
            spec_is_power_of_two(alignment as int),
            alignment >= 32,
        ensures
            r.spec_inner() == buffer,
            r.spec_offset() == 0,
            r.wf(),
            r.spec_alignment().spec_get() == alignment,
    {
        Self { inner: DynamicStorageBuffer::new_with_alignment(buffer, alignment) }
    }

    /// Moves the running offset to an absolute position, which must already
    /// sit on the binding alignment.
    pub fn set_offset(&mut self, offset: u64)
        requires
            old(self).wf(),
            offset as int % old(self).spec_alignment().spec_get() as int == 0,
            offset <= usize::MAX,
        ensures
            final(self).spec_offset() == offset,
            final(self).spec_inner() == old(self).spec_inner(),
            final(self).spec_alignment() == old(self).spec_alignment(),
    {
        self.inner.set_offset(offset);
    }

    pub fn into_inner(self) -> (r: B)
        ensures
            r == self.spec_inner(),
    {
        self.inner.into_inner()
    }
}

impl<B: BufferRef> DynamicUniformBuffer<B> {
    /// The bytes the wrapped container holds.
    pub open spec fn contents(&self) -> Seq<u8> {
        self.spec_dynamic().contents()
    }

    /// As `DynamicStorageBuffer::create`, for a uniform-compatible shape.
    pub fn create(&mut self, ty: &ShaderType) -> (r: Result<ShaderValue, Error>)
        requires
            spec_wf(*ty),
            spec_is_uniform_compat(*ty),
        ensures
            final(self).contents() == old(self).contents(),
            final(self).spec_alignment() == old(self).spec_alignment(),
            r is Ok <==> old(self).spec_offset() + spec_min_size(*ty) <= old(self).contents().len(),
            r matches Ok(v) ==> spec_matches(*ty, v) && crate::encoding::spec_decodes(
                *ty,
                old(self).contents().skip(old(self).spec_offset() as int),
                None,
                v,
            ) && final(self).spec_offset() == (if old(self).spec_offset() + spec_size(*ty, v)
                <= usize::MAX {
                old(self).spec_offset() + spec_size(*ty, v)
            } else {
                usize::MAX as int
            }),
            r is Err ==> final(self).spec_offset() == old(self).spec_offset(),
    {
        self.inner.create(ty)
    }

    /// As `DynamicStorageBuffer::read`, for a uniform-compatible shape.
    pub fn read(&mut self, ty: &ShaderType, value: &mut ShaderValue) -> (r: Result<(), Error>)
        requires
            spec_wf(*ty),
            spec_is_uniform_compat(*ty),
            spec_matches(*ty, *old(value)),
        ensures
            final(self).contents() == old(self).contents(),
            final(self).spec_alignment() == old(self).spec_alignment(),
            r is Ok <==> old(self).spec_offset() + spec_min_size(*ty) <= old(self).contents().len(),
            r is Ok ==> spec_matches(*ty, *final(value)) && crate::encoding::spec_decodes(
                *ty,
                old(self).contents().skip(old(self).spec_offset() as int),
                None,
                *final(value),
            ),
            r is Err ==> *final(value) == *old(value) && final(self).spec_offset() == old(self).spec_offset(),
    {
        self.inner.read(ty, value)
    }
}

impl<B: BufferMut> DynamicUniformBuffer<B> {
    /// As `DynamicStorageBuffer::write`, for a uniform-compatible shape.
    pub fn write(&mut self, ty: &ShaderType, value: &ShaderValue) -> (r: Result<u64, Error>)
        requires
            spec_wf(*ty),
            spec_is_uniform_compat(*ty),
            spec_matches(*ty, *value),
            old(self).spec_offset() + spec_size(*ty, *value) <= usize::MAX,
        ensures
            final(self).spec_alignment() == old(self).spec_alignment(),
            r matches Ok(o) ==> o == old(self).spec_offset() && final(self).contents()
                == spec_written(
                old(self).contents(),
                old(self).spec_offset() as int,
                *ty,
                *value,
            ) && final(self).spec_offset() == old(self).spec_offset() + spec_size(*ty, *value),
            r is Err ==> final(self).contents() == old(self).contents() && final(self).spec_offset() == old(self).spec_offset(),
            old(self).spec_offset() + spec_size(*ty, *value) <= old(self).contents().len()
                ==> r is Ok,
    {
        self.inner.write(ty, value)
    }

    /// As `DynamicStorageBuffer::write_single_member`, but spacing
    /// composite members by the 16-byte uniform minimum.
    pub fn write_single_member(&mut self, ty: &ShaderType, value: &ShaderValue) -> (r: Result<
        u64,
        Error,
    >)
        requires
            spec_wf(*ty),
            spec_matches(*ty, *value),
            spec_round_up(old(self).spec_offset() as int, spec_uniform_member_alignment(*ty))
                + spec_size(*ty, *value) <= usize::MAX,
        ensures
            final(self).spec_alignment() == old(self).spec_alignment(),
            r matches Ok(o) ==> o as int == spec_round_up(
                old(self).spec_offset() as int,
                spec_uniform_member_alignment(*ty),
            ) && final(self).contents() == spec_written(
                old(self).contents(),
                o as int,
                *ty,
                *value,
            ) && final(self).spec_offset() == o + spec_size(*ty, *value),
            r is Err ==> final(self).contents() == old(self).contents() && final(self).spec_offset() == old(self).spec_offset(),
            spec_round_up(old(self).spec_offset() as int, spec_uniform_member_alignment(*ty))
                + spec_size(*ty, *value) <= old(self).contents().len() ==> r is Ok,
    {
        proof {
            crate::serialize::lemma_enc_len_le_size(*ty, *value);
            crate::shader_type::lemma_wf_alignment(*ty);
            lemma_power_of_two_pos(spec_alignment(*ty));
            reveal_with_fuel(spec_is_power_of_two, 6);
            lemma_round_up_properties(
                old(self).spec_offset() as int,
                spec_uniform_member_alignment(*ty),
            );
        }
        let a = ty.alignment();
        let eff = if ty.has_uniform_min_alignment() && a < 16 {
            16
        } else {
            a
        };
        let member_alignment = AlignmentValue::new(eff);
        let offset = member_alignment.round_up(self.inner.offset as u64);
        let mut writer = match Writer::new(ty, value, &mut self.inner.inner, offset as usize) {
            Ok(w) => w,
            Err(e) => {
                return Err(e);
            },
        };
        value.write_into(ty, &mut writer, &mut self.inner.inner);
        let size = ty.size(value);
        self.inner.offset = offset as usize + size as usize;
        Ok(offset)
    }

    /// Rounds the running offset up to the binding alignment without moving
    /// any data.
    pub fn write_dynamic_struct_break(&mut self)
        requires
            old(self).wf(),
            spec_round_up(old(self).spec_offset() as int, old(self).spec_alignment().spec_get() as int)
                <= usize::MAX,
        ensures
            final(self).spec_offset() as int == spec_round_up(
                old(self).spec_offset() as int,
                old(self).spec_alignment().spec_get() as int,
            ),
            final(self).contents() == old(self).contents(),
            final(self).spec_alignment() == old(self).spec_alignment(),
    {
        self.inner.write_dynamic_struct_break();
    }
}

impl<B: BufferRef> DynamicUniformBuffer<B> {
    /// As `DynamicStorageBuffer::read_single_member`, but spacing
    /// composite members by the 16-byte uniform minimum.
    pub fn read_single_member(&mut self, ty: &ShaderType) -> (r: Result<ShaderValue, Error>)
        requires
            spec_wf(*ty),
            spec_round_up(old(self).spec_offset() as int, spec_uniform_member_alignment(*ty))
                <= usize::MAX,
        ensures
            final(self).contents() == old(self).contents(),
            final(self).spec_alignment() == old(self).spec_alignment(),
            r is Ok <==> spec_round_up(
                old(self).spec_offset() as int,
                spec_uniform_member_alignment(*ty),
            ) + spec_min_size(*ty) <= old(self).contents().len(),
            r matches Ok(v) ==> spec_matches(*ty, v) && crate::encoding::spec_decodes(
                *ty,
                old(self).contents().skip(
                    spec_round_up(
                        old(self).spec_offset() as int,
                        spec_uniform_member_alignment(*ty),
                    ),
                ),
                None,
                v,
            ) && final(self).spec_offset() == (if spec_round_up(
                old(self).spec_offset() as int,
                spec_uniform_member_alignment(*ty),
            ) + spec_size(*ty, v) <= usize::MAX {
                spec_round_up(old(self).spec_offset() as int, spec_uniform_member_alignment(*ty))
                    + spec_size(*ty, v)
            } else {
                usize::MAX as int
            }),
            r is Err ==> final(self).spec_offset() == old(self).spec_offset(),
    {
        proof {
            crate::shader_type::lemma_wf_alignment(*ty);
            lemma_power_of_two_pos(spec_alignment(*ty));
            reveal_with_fuel(spec_is_power_of_two, 6);
            lemma_round_up_properties(
                old(self).spec_offset() as int,
                spec_uniform_member_alignment(*ty),
            );
        }
        let a = ty.alignment();
        let eff = if ty.has_uniform_min_alignment() && a < 16 {
            16
        } else {
            a
        };
        let member_alignment = AlignmentValue::new(eff);
        let offset = member_alignment.round_up(self.inner.offset as u64);
        let mut reader = match Reader::new(ty, &self.inner.inner, offset as usize) {
            Ok(rd) => rd,
            Err(e) => {
                return Err(e);
            },
        };
        let v = ShaderValue::create_from(ty, &mut reader, &self.inner.inner);
        proof {
            crate::serialize::lemma_enc_len_le_size(*ty, v);
            crate::shader_value::lemma_size_bounds(*ty, v);
        }
        let consumed = reader.pos - offset as usize;
        let size = clamped_size(ty, &v, consumed);
        if size <= (usize::MAX - offset as usize) as u64 {
            self.inner.offset = offset as usize + size as usize;
        } else {
            self.inner.offset = usize::MAX;
        }
        Ok(v)
    }

    /// Rounds the running offset up to the binding alignment without moving
    /// any data.
    pub fn read_dynamic_struct_break(&mut self)
        requires
            old(self).wf(),
            spec_round_up(old(self).spec_offset() as int, old(self).spec_alignment().spec_get() as int)
                <= usize::MAX,
        ensures
            final(self).spec_offset() as int == spec_round_up(
                old(self).spec_offset() as int,
                old(self).spec_alignment().spec_get() as int,
            ),
            final(self).contents() == old(self).contents(),
            final(self).spec_alignment() == old(self).spec_alignment(),
    {
        self.inner.read_dynamic_struct_break();
    }
}

/// Vertex buffer wrapper: owns a container and a running offset.
pub struct VertexBuffer<B> {
    inner: B,
    offset: usize,
}

impl<B> VertexBuffer<B> {
    /// The buffer the wrapper holds.
    pub closed spec fn spec_inner(&self) -> &B {
        &self.inner
    }

    /// The running offset.
    pub closed spec fn spec_offset(&self) -> usize {
        self.offset
    }

    /// The running offset, as callers observe it.
    pub fn offset(&self) -> (r: u64)
        ensures
            r == self.spec_offset(),
    {
        self.offset as u64
    }

    pub fn new(buffer: B) -> (r: Self)
        ensures
            r.spec_inner() == buffer,
            r.spec_offset() == 0,
    {
        Self::new_with_alignment(buffer)
    }

    pub fn new_with_alignment(buffer: B) -> (r: Self)
        ensures
            r.spec_inner() == buffer,
            r.spec_offset() == 0,
    {
        Self { inner: buffer, offset: 0 }
    }

    pub fn set_offset(&mut self, offset: u64)
        requires
            offset <= usize::MAX,
        ensures
            final(self).spec_offset() == offset,
            final(self).spec_inner() == old(self).spec_inner(),
    {
        self.offset = offset as usize;
    }

    pub fn into_inner(self) -> (r: B)
        ensures
            r == self.spec_inner(),
    {
        self.inner
    }
}

} // verus!
