//! Layout metadata: alignment, minimum size, uniform flag, and the
//! shape-specific extras (array stride, matrix column padding, struct
//! offsets and paddings).

use vstd::prelude::*;

verus! {

use crate::alignment_value::{spec_is_power_of_two, AlignmentValue};
use crate::size_value::SizeValue;

/// The uniform address space asks composite values to sit on 16-byte
/// boundaries.
pub open spec fn spec_uniform_min_alignment() -> int {
    16
}

/// Extra layout data of an array shape.
pub struct ArrayMetadata {
    pub stride: SizeValue,
    pub el_padding: u64,
}

/// Extra layout data of a matrix shape.
pub struct MatrixMetadata {
    pub col_padding: u64,
}

/// Extra layout data of a struct shape: per-field offsets and the gap
/// after each field.
pub struct StructMetadata {
    pub offsets: Vec<u64>,
    pub paddings: Vec<u64>,
}

/// The extra layout data a shape carries, by shape kind.
pub enum ExtraMetadata {
    Plain,
    Array(ArrayMetadata),
    Matrix(MatrixMetadata),
    Struct(StructMetadata),
}

/// Layout metadata of one type shape.
pub struct Metadata<E> {
    pub alignment: AlignmentValue,
    pub has_uniform_min_alignment: bool,
    pub min_size: SizeValue,
    /// Whether the wire layout leaves gaps anywhere inside the shape. When
    /// it does not, a value's bytes are one contiguous run, and the
    /// little-endian in-memory form can move in a single bulk copy.
    pub has_internal_padding: bool,
    pub extra: E,
}

impl Metadata<()> {
    /// Metadata of a shape with no extra layout data.
    pub fn from_alignment_and_size(alignment: u64, size: u64) -> (r: Self)
        requires
            spec_is_power_of_two(alignment as int),
            size > 0,
        ensures
            r.alignment.wf(),
            r.alignment.spec_get() == alignment,
            r.min_size.wf(),
            r.min_size.spec_get() == size,
            !r.has_uniform_min_alignment,
            !r.has_internal_padding,
    {
        Self {
            alignment: AlignmentValue::new(alignment),
            has_uniform_min_alignment: false,
            min_size: SizeValue::new(size),
            has_internal_padding: false,
            extra: (),
        }
    }
}

impl<E> Metadata<E> {
    pub fn alignment(&self) -> (r: AlignmentValue)
        ensures
            r == self.alignment,
    {
        self.alignment
    }

    /// The extra alignment the uniform address space demands of this shape,
    /// if any.
    pub fn uniform_min_alignment(&self) -> (r: Option<AlignmentValue>)
        ensures
            self.has_uniform_min_alignment ==> (r matches Some(a) && a.wf() && a.spec_get()
                == spec_uniform_min_alignment()),
            !self.has_uniform_min_alignment ==> r is None,
    {
        if self.has_uniform_min_alignment {
            proof {
                reveal_with_fuel(spec_is_power_of_two, 6);
            }
            Some(AlignmentValue::new(16))
        } else {
            None
        }
    }

    pub fn min_size(&self) -> (r: SizeValue)
        ensures
            r == self.min_size,
    {
        self.min_size
    }
}

impl Metadata<ExtraMetadata> {
    /// The spacing of consecutive array elements.
    pub fn stride(&self) -> (r: SizeValue)
        requires
            self.extra is Array,
        ensures
            r == self.extra->Array_0.stride,
    {
        match &self.extra {
            ExtraMetadata::Array(a) => a.stride,
            _ => SizeValue::new(1),
        }
    }

    /// The gap after each array element.
    pub fn el_padding(&self) -> (r: u64)
        requires
            self.extra is Array,
        ensures
            r == self.extra->Array_0.el_padding,
    {
        match &self.extra {
            ExtraMetadata::Array(a) => a.el_padding,
            _ => 0,
        }
    }

    /// The gap after each matrix column.
    pub fn col_padding(&self) -> (r: u64)
        requires
            self.extra is Matrix,
        ensures
            r == self.extra->Matrix_0.col_padding,
    {
        match &self.extra {
            ExtraMetadata::Matrix(m) => m.col_padding,
            _ => 0,
        }
    }

    /// The byte offset of field `i`.
    pub fn offset(&self, i: usize) -> (r: u64)
        requires
            self.extra is Struct,
            i < self.extra->Struct_0.offsets@.len(),
        ensures
            r == self.extra->Struct_0.offsets@[i as int],
    {
        match &self.extra {
            ExtraMetadata::Struct(s) => s.offsets[i],
            _ => 0,
        }
    }

    /// The byte offset of the last field.
    pub fn last_offset(&self) -> (r: u64)
        requires
            self.extra is Struct,
            self.extra->Struct_0.offsets@.len() >= 1,
        ensures
            r == self.extra->Struct_0.offsets@.last(),
    {
        match &self.extra {
            ExtraMetadata::Struct(s) => s.offsets[s.offsets.len() - 1],
            _ => 0,
        }
    }

    /// The gap after field `i`.
    pub fn padding(&self, i: usize) -> (r: u64)
        requires
            self.extra is Struct,
            i < self.extra->Struct_0.paddings@.len(),
        ensures
            r == self.extra->Struct_0.paddings@[i as int],
    {
        match &self.extra {
            ExtraMetadata::Struct(s) => s.paddings[i],
            _ => 0,
        }
    }
}

} // verus!
