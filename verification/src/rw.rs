//! Byte containers and the bounds-checked reader and writer over them.

use vstd::prelude::*;

verus! {

use vstd::string::StringSliceAdditionalSpecFns;
use crate::const_str::ConstStr;
use crate::shader_type::{spec_min_size, spec_wf, ShaderType};
use crate::shader_value::{spec_matches, spec_size, ShaderValue};

broadcast use vstd::std_specs::vec::axiom_spec_len, vstd::array::group_array_axioms;

/// A recoverable transfer error: the buffer cannot hold (or provide) the
/// bytes the operation needs.
#[derive(Clone, Copy, Debug, PartialEq, Eq, Structural)]
pub enum Error {
    BufferTooSmall { expected: u64, found: u64 },
}

impl Error {
    /// The error, spelt out: the bytes the operation needed and the bytes
    /// the buffer had.
    pub fn message(&self) -> (r: ConstStr)
        ensures
            self matches Error::BufferTooSmall { expected, found } ==> r@
                == "could not read/write ".spec_bytes() + crate::const_str::spec_decimal_digits(
                expected as nat,
            ) + " bytes from/into ".spec_bytes() + crate::const_str::spec_decimal_digits(
                found as nat,
            ) + " byte sized buffer".spec_bytes(),
    {
        match self {
            Error::BufferTooSmall { expected, found } => ConstStr::new().str(
                "could not read/write ",
            ).u64(*expected).str(" bytes from/into ").u64(*found).str(" byte sized buffer"),
        }
    }
}

/// A growable container could not be enlarged.
#[derive(Clone, Copy, Debug, PartialEq, Eq, Structural)]
pub struct EnlargeError;

impl EnlargeError {
    /// The error, spelt out.
    pub fn message(&self) -> (r: ConstStr)
        ensures
            r@ == "could not enlarge buffer".spec_bytes(),
    {
        ConstStr::new().str("could not enlarge buffer")
    }
}

/// `s` with the bytes of `val` spliced in at `at`; everything else keeps
/// its old value.
pub open spec fn spec_write_bytes(s: Seq<u8>, at: int, val: Seq<u8>) -> Seq<u8> {
    Seq::new(
        s.len(),
        |i: int|
            if at <= i < at + val.len() {
                val[i - at]
            } else {
                s[i]
            },
    )
}

/// `s` zero-extended to `wanted` bytes (unchanged when already long enough).
pub open spec fn spec_enlarged(s: Seq<u8>, wanted: int) -> Seq<u8> {
    if wanted <= s.len() {
        s
    } else {
        s + Seq::new((wanted - s.len()) as nat, |i: int| 0u8)
    }
}

/// A readable byte container.
pub trait BufferRef {
    /// The bytes the container holds.
    spec fn contents(&self) -> Seq<u8>;

    /// A container never holds more bytes than an index can address.
    proof fn lemma_len_bounded(&self)
        ensures
            self.contents().len() <= usize::MAX,
    ;

    fn len(&self) -> (r: usize)
        ensures
            r == self.contents().len(),
    ;

    /// `n` bytes starting at `offset`.
    fn read_slice(&self, offset: usize, n: usize) -> (r: Vec<u8>)
        requires
            offset + n <= self.contents().len(),
        ensures
            r@ == self.contents().subrange(offset as int, offset as int + n as int),
    ;
}

/// A writable byte container. A growable container zero-extends on demand;
/// a fixed-capacity one refuses to grow past its length.
pub trait BufferMut: BufferRef {
    /// Whether the container can grow past its current length.
    spec fn growable() -> bool;

    /// How many bytes the container can hold without growing.
    fn capacity(&self) -> (r: usize)
        ensures
            r == self.contents().len(),
    ;

    /// Copies `val` into the container at `offset`.
    fn write_slice(&mut self, offset: usize, val: &[u8])
        requires
            offset + val@.len() <= old(self).contents().len(),
        ensures
            final(self).contents() == spec_write_bytes(old(self).contents(), offset as int, val@),
    ;

    /// Makes room for `wanted` bytes: a success leaves the contents
    /// zero-extended to `wanted` (or unchanged when already long enough),
    /// a failure leaves them untouched.
    fn try_enlarge(&mut self, wanted: usize) -> (r: Result<(), EnlargeError>)
        ensures
            r is Ok ==> final(self).contents() == spec_enlarged(
                old(self).contents(),
                wanted as int,
            ),
            r is Err ==> final(self).contents() == old(self).contents() && wanted > old(
                self,
            ).contents().len(),
            wanted <= old(self).contents().len() ==> r is Ok,
            !Self::growable() && wanted > old(self).contents().len() ==> r is Err,
    {
        if wanted > self.capacity() {
            Err(EnlargeError)
        } else {
            Ok(())
        }
    }
}

impl BufferRef for Vec<u8> {
    open spec fn contents(&self) -> Seq<u8> {
        self@
    }

    proof fn lemma_len_bounded(&self) {
        assert(self@.len() == vstd::std_specs::vec::spec_vec_len(self));
    }

    fn len(&self) -> (r: usize) {
        Vec::len(self)
    }

    fn read_slice(&self, offset: usize, n: usize) -> (r: Vec<u8>) {
        proof {
            self.lemma_len_bounded();
        }
        let mut out: Vec<u8> = Vec::new();
        let mut i: usize = 0;
        while i < n
            invariant
                0 <= i <= n,
                offset + n <= self@.len() <= usize::MAX,
                out@ == self@.subrange(offset as int, offset as int + i as int),
            decreases n - i,
        {
            out.push(self[offset + i]);
            proof {
                assert(out@ == self@.subrange(offset as int, offset as int + i as int + 1));
            }
            i = i + 1;
        }
        out
    }
}

impl BufferMut for Vec<u8> {
    open spec fn growable() -> bool {
        true
    }

    fn capacity(&self) -> (r: usize) {
        Vec::len(self)
    }

    fn write_slice(&mut self, offset: usize, val: &[u8]) {
        proof {
            old(self).lemma_len_bounded();
        }
        let n: usize = val.len();
        let mut i: usize = 0;
        while i < n
            invariant
                0 <= i <= n,
                n == val@.len(),
                offset + n <= old(self)@.len() <= usize::MAX,
                self@.len() == old(self)@.len(),
                forall|k: int|
                    0 <= k < self@.len() ==> #[trigger] self@[k] == if offset <= k < offset + i {
                        val@[k - offset]
                    } else {
                        old(self)@[k]
                    },
            decreases n - i,
        {
            self[offset + i] = val[i];
            i = i + 1;
        }
        proof {
            assert(self@ =~= spec_write_bytes(old(self)@, offset as int, val@));
        }
    }

    fn try_enlarge(&mut self, wanted: usize) -> (r: Result<(), EnlargeError>) {
        let n: usize = self.len();
        if wanted <= n {
            return Ok(());
        }
        match self.try_reserve(wanted - n) {
            Err(_) => Err(EnlargeError),
            Ok(()) => {
                let mut i: usize = n;
                while i < wanted
                    invariant
                        n <= i <= wanted,
                        self@ == old(self)@ + Seq::new((i - n) as nat, |k: int| 0u8),
                    decreases wanted - i,
                {
                    self.push(0);
                    proof {
                        assert(self@ =~= old(self)@ + Seq::new((i + 1 - n) as nat, |k: int| 0u8));
                    }
                    i = i + 1;
                }
                Ok(())
            },
        }
    }
}

impl<const N: usize> BufferRef for [u8; N] {
    open spec fn contents(&self) -> Seq<u8> {
        self@
    }

    proof fn lemma_len_bounded(&self) {
        assert(self@.len() == N);
    }

    fn len(&self) -> (r: usize) {
        N
    }

    fn read_slice(&self, offset: usize, n: usize) -> (r: Vec<u8>) {
        let mut out: Vec<u8> = Vec::new();
        let mut i: usize = 0;
        while i < n
            invariant
                0 <= i <= n,
                offset + n <= self@.len(),
                out@ == self@.subrange(offset as int, offset as int + i as int),
            decreases n - i,
        {
            out.push(self[offset + i]);
            proof {
                assert(out@ == self@.subrange(offset as int, offset as int + i as int + 1));
            }
            i = i + 1;
        }
        out
    }
}

impl<const N: usize> BufferMut for [u8; N] {
    open spec fn growable() -> bool {
        false
    }

    fn capacity(&self) -> (r: usize) {
        N
    }

    fn write_slice(&mut self, offset: usize, val: &[u8]) {
        let n: usize = val.len();
        let mut i: usize = 0;
        while i < n
            invariant
                0 <= i <= n,
                n == val@.len(),
                offset + n <= old(self)@.len(),
                forall|k: int|
                    0 <= k < self@.len() ==> #[trigger] self@[k] == if offset <= k < offset + i {
                        val@[k - offset]
                    } else {
                        old(self)@[k]
                    },
            decreases n - i,
        {
            self[offset + i] = val[i];
            i = i + 1;
        }
        proof {
            assert(self@ =~= spec_write_bytes(old(self)@, offset as int, val@));
        }
    }
}

/// The side channel of one write operation: the element count of the
/// runtime-sized array being written, for a length marker to pick up.
pub struct WriteContext {
    /// length of the contained runtime sized array
    pub rts_array_length: Option<u32>,
}

/// The side channel of one read operation: the cap a decoded length marker
/// puts on the elements still to be read.
pub struct ReadContext {
    /// max elements to read into the contained runtime sized array
    pub rts_array_max_el_to_read: Option<u32>,
}

/// A write cursor over a byte container, created once per write operation.
pub struct Writer {
    pub ctx: WriteContext,
    pub pos: usize,
}

impl Writer {
    /// Makes room for `data` at `offset` and positions a fresh cursor
    /// there. Fails with `BufferTooSmall` exactly when the container cannot
    /// provide `offset + size` bytes.
    pub fn new<B: BufferMut>(
        ty: &ShaderType,
        data: &ShaderValue,
        buffer: &mut B,
        offset: usize,
    ) -> (r: Result<Writer, Error>)
        requires
            spec_wf(*ty),
            spec_matches(*ty, *data),
            offset + spec_size(*ty, *data) <= usize::MAX,
        ensures
            r matches Ok(w) ==> {
                &&& final(buffer).contents() == spec_enlarged(
                    old(buffer).contents(),
                    offset + spec_size(*ty, *data),
                )
                &&& final(buffer).contents().len() >= offset + spec_size(*ty, *data)
                &&& w.pos == offset
                &&& w.ctx.rts_array_length is None
            },
            r matches Err(e) ==> {
                &&& final(buffer).contents() == old(buffer).contents()
                &&& offset + spec_size(*ty, *data) > old(buffer).contents().len()
                &&& e == (Error::BufferTooSmall {
                    expected: spec_size(*ty, *data) as u64,
                    found: (if old(buffer).contents().len() >= offset {
                        old(buffer).contents().len() - offset
                    } else {
                        0
                    }) as u64,
                })
            },
            offset + spec_size(*ty, *data) <= old(buffer).contents().len() ==> r is Ok,
            !B::growable() && offset + spec_size(*ty, *data) > old(buffer).contents().len()
                ==> r is Err,
    {
        let size = ty.size(data);
        let wanted = offset + size as usize;
        match buffer.try_enlarge(wanted) {
            Ok(()) => Ok(
                Writer { ctx: WriteContext { rts_array_length: None }, pos: offset },
            ),
            Err(_) => {
                let cap = buffer.capacity();
                let found: u64 = if cap >= offset {
                    (cap - offset) as u64
                } else {
                    0
                };
                Err(Error::BufferTooSmall { expected: size, found })
            },
        }
    }

    /// Skips `amount` bytes without transferring data.
    pub fn advance(&mut self, amount: usize)
        requires
            old(self).pos + amount <= usize::MAX,
        ensures
            final(self).pos == old(self).pos + amount,
            final(self).ctx == old(self).ctx,
    {
        self.pos = self.pos + amount;
    }

    /// Writes a fixed-width group of bytes at the cursor.
    pub fn write<B: BufferMut>(&mut self, buffer: &mut B, val: &[u8])
        requires
            old(self).pos + val@.len() <= old(buffer).contents().len(),
        ensures
            final(buffer).contents() == spec_write_bytes(
                old(buffer).contents(),
                old(self).pos as int,
                val@,
            ),
            final(self).pos == old(self).pos + val@.len(),
            final(self).ctx == old(self).ctx,
    {
        proof {
            buffer.lemma_len_bounded();
        }
        buffer.write_slice(self.pos, val);
        self.pos = self.pos + val.len();
    }

    /// Writes a slice of bytes at the cursor (the bulk-transfer path).
    pub fn write_slice<B: BufferMut>(&mut self, buffer: &mut B, val: &[u8])
        requires
            old(self).pos + val@.len() <= old(buffer).contents().len(),
        ensures
            final(buffer).contents() == spec_write_bytes(
                old(buffer).contents(),
                old(self).pos as int,
                val@,
            ),
            final(self).pos == old(self).pos + val@.len(),
            final(self).ctx == old(self).ctx,
    {
        proof {
            buffer.lemma_len_bounded();
        }
        buffer.write_slice(self.pos, val);
        self.pos = self.pos + val.len();
    }
}

/// A read cursor over a byte container, created once per read operation.
pub struct Reader {
    pub ctx: ReadContext,
    pub pos: usize,
    pub len: usize,
}

impl Reader {
    /// Positions a fresh cursor at `offset`. Fails with `BufferTooSmall`
    /// exactly when fewer than `min_size` bytes remain past `offset`.
    pub fn new<B: BufferRef>(ty: &ShaderType, buffer: &B, offset: usize) -> (r: Result<
        Reader,
        Error,
    >)
        requires
            spec_wf(*ty),
        ensures
            r matches Ok(rd) ==> {
                &&& rd.pos == offset
                &&& rd.len == buffer.contents().len()
                &&& rd.ctx.rts_array_max_el_to_read is None
                &&& offset + spec_min_size(*ty) <= buffer.contents().len()
            },
            r matches Err(e) ==> {
                &&& offset + spec_min_size(*ty) > buffer.contents().len()
                &&& e == (Error::BufferTooSmall {
                    expected: spec_min_size(*ty) as u64,
                    found: (if buffer.contents().len() >= offset {
                        buffer.contents().len() - offset
                    } else {
                        0
                    }) as u64,
                })
            },
    {
        let len = buffer.len();
        let remaining: u64 = if len >= offset {
            (len - offset) as u64
        } else {
            0
        };
        let min_size = ty.min_size();
        if remaining < min_size {
            Err(Error::BufferTooSmall { expected: min_size, found: remaining })
        } else {
            Ok(
                Reader { ctx: ReadContext { rts_array_max_el_to_read: None }, pos: offset, len },
            )
        }
    }

    /// Skips `amount` bytes without transferring data.
    pub fn advance(&mut self, amount: usize)
        requires
            old(self).pos + amount <= usize::MAX,
        ensures
            final(self).pos == old(self).pos + amount,
            final(self).len == old(self).len,
            final(self).ctx == old(self).ctx,
    {
        self.pos = self.pos + amount;
    }

    /// Reads a fixed-width group of bytes at the cursor.
    pub fn read<B: BufferRef>(&mut self, buffer: &B, n: usize) -> (r: Vec<u8>)
        requires
            old(self).len == buffer.contents().len(),
            old(self).pos + n <= buffer.contents().len(),
        ensures
            r@ == buffer.contents().subrange(
                old(self).pos as int,
                old(self).pos + n,
            ),
            final(self).pos == old(self).pos + n,
            final(self).len == old(self).len,
            final(self).ctx == old(self).ctx,
    {
        let out = buffer.read_slice(self.pos, n);
        self.pos = self.pos + n;
        out
    }

    /// Reads a slice of bytes at the cursor (the bulk-transfer path).
    pub fn read_slice<B: BufferRef>(&mut self, buffer: &B, n: usize) -> (r: Vec<u8>)
        requires
            old(self).len == buffer.contents().len(),
            old(self).pos + n <= buffer.contents().len(),
        ensures
            r@ == buffer.contents().subrange(
                old(self).pos as int,
                old(self).pos + n,
            ),
            final(self).pos == old(self).pos + n,
            final(self).len == old(self).len,
            final(self).ctx == old(self).ctx,
    {
        let out = buffer.read_slice(self.pos, n);
        self.pos = self.pos + n;
        out
    }

    /// How many bytes remain past the cursor.
    pub fn remaining(&self) -> (r: usize)
        ensures
            r as int == if self.pos <= self.len {
                self.len - self.pos
            } else {
                0
            },
    {
        if self.len >= self.pos {
            self.len - self.pos
        } else {
            0
        }
    }
}

} // verus!
