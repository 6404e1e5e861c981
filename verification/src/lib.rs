//! Byte layout and bit-exact encoding of host-shareable GPU buffer types.
//!
//! The crate derives, for every supported type shape (scalars, vectors,
//! matrices, fixed and runtime-sized arrays, structs), the alignment, size,
//! stride, offset and padding values that the WGSL host-shareable layout
//! rules prescribe, and moves values between their host representation and
//! that byte layout through bounds-checked readers and writers.

pub mod alignment_value;
pub mod buffers;
pub mod const_str;
pub mod encoding;
pub mod laws;
pub mod metadata;
pub mod rw;
pub mod serialize;
pub mod shader_type;
pub mod shader_value;
pub mod size_value;

pub use alignment_value::AlignmentValue;
pub use buffers::{DynamicStorageBuffer, DynamicUniformBuffer, StorageBuffer, UniformBuffer, VertexBuffer};
pub use const_str::ConstStr;
pub use metadata::{ArrayMetadata, ExtraMetadata, Metadata, MatrixMetadata, StructMetadata};
pub use rw::{BufferMut, BufferRef, EnlargeError, Error, ReadContext, Reader, WriteContext, Writer};
pub use shader_type::{FieldLayout, ShaderType};
pub use shader_value::{ArrayLength, ShaderValue};
pub use size_value::SizeValue;
