//! In-memory blocks and their on-wire format.
//!
//! A block file holds, all integers big-endian:
//! `mode: u16`, `ndim: u16`, `size: u32 x ndim`, `num_el: u32` (only when
//! `mode == 1`), then the payload of `num_el` elements.
use vstd::prelude::*;

use crate::data_type::{
    DataType,
    be16, be32, from_be16, from_be32, lemma_be16, lemma_be32, push_be16, push_be32, read_be16,
    read_be32, ReflectedType,
};
use crate::coords::{BlockCoord, GridCoord};
use crate::dataset::{
    ints_u32, lemma_product_nonneg, lemma_product_prefix_le, lemma_product_zero, product,
    DatasetAttributes,
};
use crate::N5Error;

verus! {

/// Width in bytes of one element of `T`.
pub open spec fn width<T: ReflectedType>() -> nat {
    T::spec_variant().spec_size_of()
}

/// Concatenated big-endian bytes of a sequence of elements.
pub open spec fn encode_elems<T: ReflectedType>(s: Seq<T>) -> Seq<u8>
    decreases s.len(),
{
    if s.len() == 0 {
        Seq::empty()
    } else {
        encode_elems(s.drop_last()) + T::spec_to_be(s.last())
    }
}

/// The `n` elements whose bytes follow one another in `b` from `start` on.
pub open spec fn decode_elems<T: ReflectedType>(b: Seq<u8>, start: int, n: nat) -> Seq<T> {
    Seq::new(
        n,
        |i: int| T::spec_from_be(b.subrange(start + i * width::<T>(), start + (i + 1) * width::<T>())),
    )
}

/// Mode of a block: full (0) when it holds one element per voxel of its
/// extent, else varlength (1).
pub open spec fn block_mode(size: Seq<u32>, num_el: int) -> u16 {
    if num_el == product(ints_u32(size)) {
        0
    } else {
        1
    }
}

/// Header bytes of a block of extent `size` holding `num_el` elements.
pub open spec fn encode_header(ndim: u16, size: Seq<u32>, num_el: u32) -> Seq<u8> {
    let mode = block_mode(size, num_el as int);
    be16(mode) + be16(ndim) + encode_elems(size) + if mode == 0 {
        Seq::empty()
    } else {
        be32(num_el)
    }
}

/// Bytes of a whole block: header, then the payload.
pub open spec fn encode_block<T: ReflectedType>(ndim: u16, size: Seq<u32>, data: Seq<T>) -> Seq<u8> {
    encode_header(ndim, size, data.len() as u32) + encode_elems(data)
}

/// Reading a header from `b`: its extent, its element count and its length in
/// bytes.
pub open spec fn decode_header(b: Seq<u8>) -> Result<(Seq<u32>, nat, nat), N5Error> {
    if b.len() < 4 {
        Err(N5Error::Io)
    } else {
        let mode = from_be16(b.subrange(0, 2));
        let ndim = from_be16(b.subrange(2, 4)) as nat;
        let len = 4 + 4 * ndim;
        if b.len() < len {
            Err(N5Error::Io)
        } else {
            let size = decode_elems::<u32>(b, 4, ndim);
            if mode == 0 {
                if product(ints_u32(size)) <= u32::MAX {
                    Ok((size, product(ints_u32(size)) as nat, len))
                } else {
                    Err(N5Error::InvalidData)
                }
            } else if mode == 1 {
                if b.len() < len + 4 {
                    Err(N5Error::Io)
                } else {
                    Ok((size, from_be32(b.subrange(len as int, len as int + 4)) as nat, len + 4))
                }
            } else {
                Err(N5Error::InvalidData)
            }
        }
    }
}

/// Reading a whole block of elements of `T` from `b`: its extent and its
/// elements. Bytes after the payload are ignored.
pub open spec fn decode_block<T: ReflectedType>(b: Seq<u8>) -> Result<(Seq<u32>, Seq<T>), N5Error> {
    match decode_header(b) {
        Err(e) => Err(e),
        Ok((size, n, len)) => if len + n * width::<T>() <= b.len() {
            Ok((size, decode_elems::<T>(b, len as int, n)))
        } else {
            Err(N5Error::Io)
        },
    }
}

proof fn lemma_encode_len<T: ReflectedType>(s: Seq<T>)
    ensures
        encode_elems(s).len() == s.len() * width::<T>(),
    decreases s.len(),
{
    if s.len() > 0 {
        lemma_encode_len(s.drop_last());
        T::lemma_encoding(s.last());
        let n = s.len() as int;
        let w = width::<T>() as int;
        assert((n - 1) * w + w == n * w) by (nonlinear_arith);
    }
}

proof fn lemma_encode_index<T: ReflectedType>(s: Seq<T>, i: int)
    requires
        0 <= i < s.len(),
    ensures
        encode_elems(s).subrange(i * width::<T>(), (i + 1) * width::<T>()) == T::spec_to_be(s[i]),
    decreases s.len(),
{
    let w = width::<T>() as int;
    let p = s.drop_last();
    lemma_encode_len(p);
    T::lemma_encoding(s.last());
    if i == s.len() - 1 {
        assert(i * w == p.len() * w);
        assert((i + 1) * w == i * w + w) by (nonlinear_arith);
        assert(encode_elems(s).subrange(i * w, (i + 1) * w) =~= T::spec_to_be(s[i]));
    } else {
        lemma_encode_index(p, i);
        assert((i + 1) * w <= p.len() * w) by (nonlinear_arith)
            requires
                i + 1 <= p.len(),
                w >= 1,
        ;
        assert(0 <= i * w) by (nonlinear_arith)
            requires
                i >= 0,
                w >= 1,
        ;
        assert(encode_elems(s).subrange(i * w, (i + 1) * w) =~= encode_elems(p).subrange(
            i * w,
            (i + 1) * w,
        ));
    }
}

/// Elements encoded one after another, between any other bytes, decode back.
pub proof fn lemma_elems_round_trip<T: ReflectedType>(pre: Seq<u8>, s: Seq<T>, post: Seq<u8>)
    ensures
        decode_elems::<T>(pre + encode_elems(s) + post, pre.len() as int, s.len()) == s,
{
    let w = width::<T>() as int;
    let b = pre + encode_elems(s) + post;
    lemma_encode_len(s);
    assert forall|i: int| 0 <= i < s.len() implies T::spec_from_be(
        #[trigger] b.subrange(pre.len() + i * w, pre.len() + (i + 1) * w),
    ) == s[i] by {
        lemma_encode_index(s, i);
        T::lemma_encoding(s[i]);
        assert((i + 1) * w <= s.len() * w) by (nonlinear_arith)
            requires
                i + 1 <= s.len(),
                w >= 1,
        ;
        assert(0 <= i * w) by (nonlinear_arith)
            requires
                i >= 0,
                w >= 1,
        ;
        assert((i + 1) * w == i * w + w) by (nonlinear_arith);
        assert(b.subrange(pre.len() + i * w, pre.len() + (i + 1) * w) =~= encode_elems(s).subrange(
            i * w,
            (i + 1) * w,
        ));
    }
    assert(decode_elems::<T>(b, pre.len() as int, s.len()) =~= s);
}

/// Appends the big-endian bytes of each element of `data` to `out`.
fn write_elems<T: ReflectedType>(data: &[T], out: &mut Vec<u8>)
    ensures
        final(out)@ == old(out)@ + encode_elems(data@),
{
    let ghost start = out@;
    let mut i: usize = 0;
    while i < data.len()
        invariant
            0 <= i <= data@.len(),
            out@ == start + encode_elems(data@.subrange(0, i as int)),
        decreases data@.len() - i,
    {
        data[i].write_be(out);
        assert(data@.subrange(0, i + 1).drop_last() =~= data@.subrange(0, i as int));
        i += 1;
    }
    assert(data@.subrange(0, data@.len() as int) =~= data@);
}

/// Reads `n` elements of `T` from the bytes of `b` that start at `start`.
fn read_elems<T: ReflectedType>(b: &[u8], start: usize, n: usize) -> (r: Vec<T>)
    requires
        start + n * width::<T>() <= b@.len(),
    ensures
        r@ == decode_elems::<T>(b@, start as int, n as nat),
{
    let w = T::variant().size_of();
    let blen = b.len();
    let mut r: Vec<T> = Vec::new();
    let mut pos: usize = start;
    let mut i: usize = 0;
    while i < n
        invariant
            0 <= i <= n,
            w == width::<T>(),
            start + n * w <= b@.len(),
            blen == b@.len(),
            pos == start + i * w,
            r@ == decode_elems::<T>(b@, start as int, i as nat),
        decreases n - i,
    {
        assert(pos + w <= start + n * w) by (nonlinear_arith)
            requires
                pos == start + i * w,
                i < n,
        ;
        assert(pos + w == start + (i + 1) * w) by (nonlinear_arith)
            requires
                pos == start + i * w,
        ;
        let x = T::read_be(b, pos);
        r.push(x);
        assert(r@ =~= decode_elems::<T>(b@, start as int, (i + 1) as nat));
        pos = pos + w;
        i += 1;
    }
    r
}

/// Descriptor of a block in flight: its extent, grid position and element
/// count.
pub struct BlockHeader {
    pub size: BlockCoord,
    pub grid_position: GridCoord,
    pub num_el: usize,
}

/// A block of elements of `T`: its extent, its position in the grid, and its
/// elements in row-major order.
pub struct SliceDataBlock<T: ReflectedType> {
    size: BlockCoord,
    grid_position: GridCoord,
    data: Vec<T>,
}

/// A block that owns its elements. All blocks read are of this type.
pub type VecDataBlock<T> = SliceDataBlock<T>;

impl<T: ReflectedType> SliceDataBlock<T> {
    pub closed spec fn spec_size(&self) -> Seq<u32> {
        self.size@
    }

    pub closed spec fn spec_grid_position(&self) -> Seq<u64> {
        self.grid_position@
    }

    pub closed spec fn spec_data(&self) -> Seq<T> {
        self.data@
    }

    pub fn new(size: BlockCoord, grid_position: GridCoord, data: Vec<T>) -> (r: SliceDataBlock<T>)
        ensures
            r.spec_size() == size@,
            r.spec_grid_position() == grid_position@,
            r.spec_data() == data@,
    {
        SliceDataBlock { size, grid_position, data }
    }

    pub fn into_data(self) -> (r: Vec<T>)
        ensures
            r@ == self.spec_data(),
    {
        self.data
    }
}

/// Common interface for data blocks of element type `T`.
pub trait DataBlock<T: ReflectedType> {
    spec fn spec_size(&self) -> Seq<u32>;

    spec fn spec_grid_position(&self) -> Seq<u64>;

    spec fn spec_data(&self) -> Seq<T>;

    fn get_size(&self) -> (r: &[u32])
        ensures
            r@ == self.spec_size(),
    ;

    fn get_grid_position(&self) -> (r: &[u64])
        ensures
            r@ == self.spec_grid_position(),
    ;

    fn get_data(&self) -> (r: &[T])
        ensures
            r@ == self.spec_data(),
    ;

    fn get_num_elements(&self) -> (r: u32)
        requires
            self.spec_data().len() <= u32::MAX,
        ensures
            r == self.spec_data().len(),
    ;

    fn get_header(&self) -> (r: BlockHeader)
        requires
            self.spec_data().len() <= u32::MAX,
        ensures
            r.size@ == self.spec_size(),
            r.grid_position@ == self.spec_grid_position(),
            r.num_el == self.spec_data().len(),
    ;
}

impl<T: ReflectedType> DataBlock<T> for SliceDataBlock<T> {
    open spec fn spec_size(&self) -> Seq<u32> {
        SliceDataBlock::spec_size(self)
    }

    open spec fn spec_grid_position(&self) -> Seq<u64> {
        SliceDataBlock::spec_grid_position(self)
    }

    open spec fn spec_data(&self) -> Seq<T> {
        SliceDataBlock::spec_data(self)
    }

    fn get_size(&self) -> (r: &[u32]) {
        self.size.as_slice()
    }

    fn get_grid_position(&self) -> (r: &[u64]) {
        self.grid_position.as_slice()
    }

    fn get_data(&self) -> (r: &[T]) {
        self.data.as_slice()
    }

    fn get_num_elements(&self) -> (r: u32) {
        self.data.len() as u32
    }

    fn get_header(&self) -> (r: BlockHeader) {
        BlockHeader {
            size: BlockCoord::from_slice(self.size.as_slice()),
            grid_position: GridCoord::from_slice(self.grid_position.as_slice()),
            num_el: self.data.len(),
        }
    }
}

/// Product of a sequence of 32-bit words, when it fits in one.
fn product_u32_checked(s: &[u32]) -> (r: Option<u32>)
    ensures
        product(ints_u32(s@)) >= 0,
        product(ints_u32(s@)) <= u32::MAX ==> r == Some(product(ints_u32(s@)) as u32),
        product(ints_u32(s@)) > u32::MAX ==> r is None,
{
    let ghost si = ints_u32(s@);
    proof {
        lemma_product_nonneg(si);
    }
    let mut k: usize = 0;
    while k < s.len()
        invariant
            0 <= k <= s@.len(),
            si == ints_u32(s@),
            forall|j: int| 0 <= j < k ==> s@[j] >= 1,
        decreases s@.len() - k,
    {
        if s[k] == 0 {
            proof {
                lemma_product_zero(si, k as int);
            }
            return Some(0);
        }
        k += 1;
    }
    let mut acc: u64 = 1;
    let mut i: usize = 0;
    while i < s.len()
        invariant
            0 <= i <= s@.len(),
            si == ints_u32(s@),
            forall|j: int| 0 <= j < s@.len() ==> si[j] >= 1,
            acc == product(si.subrange(0, i as int)),
            acc <= u32::MAX,
        decreases s@.len() - i,
    {
        proof {
            lemma_product_prefix_le(si, i + 1);
            assert(si.subrange(0, i + 1).drop_last() =~= si.subrange(0, i as int));
        }
        let x = s[i] as u64;
        assert(acc * x <= u32::MAX * u32::MAX) by (nonlinear_arith)
            requires
                acc <= u32::MAX,
                x <= u32::MAX,
        ;
        acc = acc * x;
        i += 1;
        if acc > u32::MAX as u64 {
            proof {
                lemma_product_prefix_le(si, i as int);
            }
            return None;
        }
    }
    assert(si.subrange(0, s@.len() as int) =~= si);
    Some(acc as u32)
}

/// Blocks whose elements can be refilled from a byte stream.
pub trait ReadableDataBlock: Sized {
    /// Number of payload bytes a refill consumes.
    spec fn spec_read_len(&self) -> nat;

    /// Whether `after` is `before` with its elements refilled from `source`.
    spec fn spec_reads(before: Self, source: Seq<u8>, after: Self) -> bool;

    /// Reads the block's elements, in big-endian order, from the start of
    /// `source`; fails with `Io`, leaving the block as it was, when `source`
    /// is too short.
    fn read_data(&mut self, source: &[u8]) -> (r: Result<(), N5Error>)
        ensures
            source@.len() >= old(self).spec_read_len() ==> r is Ok && Self::spec_reads(
                *old(self),
                source@,
                *final(self),
            ),
            source@.len() < old(self).spec_read_len() ==> r == Err::<(), N5Error>(N5Error::Io)
                && *final(self) == *old(self),
    ;
}

/// Blocks whose elements can be written to a byte stream.
pub trait WriteableDataBlock {
    /// The payload bytes of the block.
    spec fn spec_payload(&self) -> Seq<u8>;

    /// Appends the block's elements, in big-endian order, to `target`.
    fn write_data(&self, target: &mut Vec<u8>)
        ensures
            final(target)@ == old(target)@ + self.spec_payload(),
    ;
}

/// Blocks whose buffer can be reused for another block.
pub trait ReinitDataBlock<T: ReflectedType>: DataBlock<T> + Sized {
    /// Takes the extent and position of `header`, and resizes the elements
    /// to its count, keeping those that fit and filling with zeros.
    fn reinitialize(&mut self, header: BlockHeader)
        ensures
            final(self).spec_size() == header.size@,
            final(self).spec_grid_position() == header.grid_position@,
            final(self).spec_data().len() == header.num_el,
            forall|i: int|
                0 <= i < header.num_el ==> #[trigger] final(self).spec_data()[i] == if i < old(
                    self,
                ).spec_data().len() {
                    old(self).spec_data()[i]
                } else {
                    T::spec_zero()
                },
    ;

    /// Becomes a copy of `other`.
    fn reinitialize_with<B: DataBlock<T>>(&mut self, other: &B)
        ensures
            final(self).spec_size() == other.spec_size(),
            final(self).spec_grid_position() == other.spec_grid_position(),
            final(self).spec_data() == other.spec_data(),
    ;
}

impl<T: ReflectedType> ReadableDataBlock for SliceDataBlock<T> {
    open spec fn spec_read_len(&self) -> nat {
        self.spec_data().len() * width::<T>()
    }

    open spec fn spec_reads(before: Self, source: Seq<u8>, after: Self) -> bool {
        &&& after.spec_size() == before.spec_size()
        &&& after.spec_grid_position() == before.spec_grid_position()
        &&& after.spec_data() == decode_elems::<T>(source, 0, before.spec_data().len())
    }

    fn read_data(&mut self, source: &[u8]) -> (r: Result<(), N5Error>) {
        let n = self.data.len();
        let w = T::variant().size_of();
        if n > source.len() / w {
            assert(n * w > source@.len()) by (nonlinear_arith)
                requires
                    n > source@.len() / (w as nat),
                    w >= 1,
            ;
            return Err(N5Error::Io);
        }
        assert(n * w <= source@.len()) by (nonlinear_arith)
            requires
                n <= source@.len() / (w as nat),
                w >= 1,
        ;
        self.data = read_elems::<T>(source, 0, n);
        Ok(())
    }
}

impl<T: ReflectedType> WriteableDataBlock for SliceDataBlock<T> {
    open spec fn spec_payload(&self) -> Seq<u8> {
        encode_elems(self.spec_data())
    }

    fn write_data(&self, target: &mut Vec<u8>) {
        write_elems(self.data.as_slice(), target);
    }
}

impl<T: ReflectedType> ReinitDataBlock<T> for SliceDataBlock<T> {
    fn reinitialize(&mut self, header: BlockHeader) {
        let mut data: Vec<T> = Vec::new();
        let mut i: usize = 0;
        while i < header.num_el
            invariant
                0 <= i <= header.num_el,
                data@.len() == i,
                forall|j: int|
                    0 <= j < i ==> #[trigger] data@[j] == if j < self.data@.len() {
                        self.data@[j]
                    } else {
                        T::spec_zero()
                    },
            decreases header.num_el - i,
        {
            if i < self.data.len() {
                data.push(self.data[i]);
            } else {
                data.push(T::zero());
            }
            i += 1;
        }
        self.size = header.size;
        self.grid_position = header.grid_position;
        self.data = data;
    }

    fn reinitialize_with<B: DataBlock<T>>(&mut self, other: &B) {
        let size = other.get_size();
        let grid_position = other.get_grid_position();
        let data = other.get_data();
        self.size = BlockCoord::from_slice(size);
        self.grid_position = GridCoord::from_slice(grid_position);
        self.data = vstd::slice::slice_to_vec(data);
    }
}

/// Makes zero-filled blocks of element type `T` for a data type tag.
pub trait DataBlockCreator<T: ReflectedType> {
    /// Whether this tag makes blocks of `T`.
    spec fn spec_makes(&self) -> bool;

    /// A block of `header`'s extent and position holding `header.num_el`
    /// zeros, when this tag is that of `T`.
    fn create_data_block(&self, header: BlockHeader) -> (r: Option<VecDataBlock<T>>)
        ensures
            self.spec_makes() ==> r is Some && r->Some_0.spec_size() == header.size@
                && r->Some_0.spec_grid_position() == header.grid_position@
                && r->Some_0.spec_data() == Seq::new(header.num_el as nat, |i: int| T::spec_zero()),
            !self.spec_makes() ==> r is None,
    ;
}

impl<T: ReflectedType> DataBlockCreator<T> for DataType {
    open spec fn spec_makes(&self) -> bool {
        *self == T::spec_variant()
    }

    fn create_data_block(&self, header: BlockHeader) -> (r: Option<VecDataBlock<T>>) {
        if *self != T::variant() {
            return None;
        }
        let mut data: Vec<T> = Vec::new();
        let mut i: usize = 0;
        while i < header.num_el
            invariant
                0 <= i <= header.num_el,
                data@ == Seq::new(i as nat, |k: int| T::spec_zero()),
            decreases header.num_el - i,
        {
            data.push(T::zero());
            i += 1;
            assert(data@ =~= Seq::new(i as nat, |k: int| T::spec_zero()));
        }
        Some(SliceDataBlock { size: header.size, grid_position: header.grid_position, data })
    }
}

/// What the store knows of a block's file: times in milliseconds since the
/// Unix epoch, and size in bytes, each where the store reports it.
pub struct DataBlockMetadata {
    pub created: Option<u64>,
    pub accessed: Option<u64>,
    pub modified: Option<u64>,
    pub size: Option<u64>,
}

/// Reads block headers from the start of a byte buffer.
pub trait DefaultBlockHeaderReader {
    /// Reads a block header from the start of `buffer`, and returns it with
    /// its length in bytes.
    fn read_block_header(buffer: &[u8], grid_position: GridCoord) -> (r: Result<
        (BlockHeader, usize),
        N5Error,
    >)
        ensures
            match decode_header(buffer@) {
                Ok((size, n, len)) => r is Ok && r->Ok_0.0.size@ == size && r->Ok_0.0.num_el == n
                    && r->Ok_0.0.grid_position == grid_position && r->Ok_0.1 == len,
                Err(e) => r is Err && r->Err_0 == e,
            },
    ;
}

/// Decodes blocks of elements of `T` from byte buffers.
pub trait DefaultBlockReader<T: ReflectedType>: DefaultBlockHeaderReader {
    /// Decodes the block held by `buffer` as a block of elements of `T` at
    /// `grid_position`.
    fn read_block(buffer: &[u8], data_attrs: &DatasetAttributes, grid_position: GridCoord) -> (r:
        Result<VecDataBlock<T>, N5Error>)
        ensures
            data_attrs@.data_type != T::spec_variant() ==> r is Err && r->Err_0
                == N5Error::InvalidInput,
            data_attrs@.data_type == T::spec_variant() ==> match decode_block::<T>(buffer@) {
                Ok((size, data)) => r is Ok && r->Ok_0.spec_size() == size
                    && r->Ok_0.spec_grid_position() == grid_position@ && r->Ok_0.spec_data()
                    == data,
                Err(e) => r is Err && r->Err_0 == e,
            },
    ;

    /// Decodes the block held by `buffer` into `block`, reusing its buffer;
    /// on failure `block` is left as it was.
    fn read_block_into(
        buffer: &[u8],
        data_attrs: &DatasetAttributes,
        grid_position: GridCoord,
        block: &mut VecDataBlock<T>,
    ) -> (r: Result<(), N5Error>)
        ensures
            data_attrs@.data_type != T::spec_variant() ==> r == Err::<(), N5Error>(
                N5Error::InvalidInput,
            ),
            data_attrs@.data_type == T::spec_variant() ==> match decode_block::<T>(buffer@) {
                Ok((size, data)) => r is Ok && final(block).spec_size() == size
                    && final(block).spec_grid_position() == grid_position@
                    && final(block).spec_data() == data,
                Err(e) => r == Err::<(), N5Error>(e),
            },
            r is Err ==> *final(block) == *old(block),
    ;
}

/// Encodes blocks of elements of `T` held by blocks of type `B`.
pub trait DefaultBlockWriter<T: ReflectedType, B: DataBlock<T> + WriteableDataBlock> {
    /// Encodes `block` of a dataset with attributes `data_attrs`.
    fn write_block(data_attrs: &DatasetAttributes, block: &B) -> (r: Vec<u8>)
        requires
            data_attrs@.dimensions.len() <= u16::MAX,
            block.spec_size().len() == data_attrs@.dimensions.len(),
            block.spec_data().len() <= u32::MAX,
        ensures
            r@ == encode_header(
                data_attrs@.dimensions.len() as u16,
                block.spec_size(),
                block.spec_data().len() as u32,
            ) + block.spec_payload(),
    ;
}

/// Encoder and decoder of the block wire format.
pub struct DefaultBlock;

impl DefaultBlockHeaderReader for DefaultBlock {
    fn read_block_header(buffer: &[u8], grid_position: GridCoord) -> (r: Result<
        (BlockHeader, usize),
        N5Error,
    >) {
        if buffer.len() < 4 {
            return Err(N5Error::Io);
        }
        let mode = read_be16(buffer, 0);
        let ndim = read_be16(buffer, 2) as usize;
        let len: usize = 4 + 4 * ndim;
        if buffer.len() < len {
            return Err(N5Error::Io);
        }
        assert(width::<u32>() == 4);
        let size = read_elems::<u32>(buffer, 4, ndim);
        if mode == 0 {
            match product_u32_checked(size.as_slice()) {
                Some(n) => Ok(
                    (
                        BlockHeader {
                            size: BlockCoord::from_slice(size.as_slice()),
                            grid_position,
                            num_el: n as usize,
                        },
                        len,
                    ),
                ),
                None => Err(N5Error::InvalidData),
            }
        } else if mode == 1 {
            if buffer.len() - len < 4 {
                return Err(N5Error::Io);
            }
            let n = read_be32(buffer, len);
            Ok(
                (
                    BlockHeader {
                        size: BlockCoord::from_slice(size.as_slice()),
                        grid_position,
                        num_el: n as usize,
                    },
                    len + 4,
                ),
            )
        } else {
            Err(N5Error::InvalidData)
        }
    }
}

impl<T: ReflectedType> DefaultBlockReader<T> for DefaultBlock {
    fn read_block(buffer: &[u8], data_attrs: &DatasetAttributes, grid_position: GridCoord) -> (r:
        Result<VecDataBlock<T>, N5Error>) {
        if *data_attrs.get_data_type() != T::variant() {
            return Err(N5Error::InvalidInput);
        }
        let (header, len) = match <DefaultBlock as DefaultBlockHeaderReader>::read_block_header(
            buffer,
            grid_position,
        ) {
            Ok(h) => h,
            Err(e) => {
                return Err(e);
            },
        };
        let n = header.num_el;
        let w = T::variant().size_of();
        if n > (buffer.len() - len) / w {
            assert(len + n * w > buffer@.len()) by (nonlinear_arith)
                requires
                    n > (buffer@.len() - len) / (w as int),
                    w >= 1,
                    len <= buffer@.len(),
            ;
            return Err(N5Error::Io);
        }
        assert(len + n * w <= buffer@.len()) by (nonlinear_arith)
            requires
                n <= (buffer@.len() - len) / (w as int),
                w >= 1,
                len <= buffer@.len(),
        ;
        let data = read_elems::<T>(buffer, len, n);
        Ok(SliceDataBlock { size: header.size, grid_position: header.grid_position, data })
    }

    fn read_block_into(
        buffer: &[u8],
        data_attrs: &DatasetAttributes,
        grid_position: GridCoord,
        block: &mut VecDataBlock<T>,
    ) -> (r: Result<(), N5Error>) {
        match <DefaultBlock as DefaultBlockReader<T>>::read_block(buffer, data_attrs, grid_position) {
            Ok(b) => {
                *block = b;
                Ok(())
            },
            Err(e) => Err(e),
        }
    }
}

impl<T: ReflectedType, B: DataBlock<T> + WriteableDataBlock> DefaultBlockWriter<T, B> for DefaultBlock {
    fn write_block(data_attrs: &DatasetAttributes, block: &B) -> (r: Vec<u8>) {
        let n = block.get_num_elements();
        let size = block.get_size();
        let mode: u16 = match product_u32_checked(size) {
            Some(p) => if p == n {
                0
            } else {
                1
            },
            None => 1,
        };
        let ndim = data_attrs.get_ndim() as u16;
        assert(mode == block_mode(block.spec_size(), n as int));
        let mut out: Vec<u8> = Vec::new();
        push_be16(mode, &mut out);
        push_be16(ndim, &mut out);
        write_elems(size, &mut out);
        assert(out@ =~= be16(mode) + be16(ndim) + encode_elems(block.spec_size()));
        if mode != 0 {
            push_be32(n, &mut out);
        }
        assert(out@ =~= encode_header(ndim, block.spec_size(), n));
        block.write_data(&mut out);
        out
    }
}

/// Encoding a block and decoding the bytes gives back its extent and its
/// elements, in full and in varlength mode alike.
pub proof fn lemma_block_round_trip<T: ReflectedType>(size: Seq<u32>, data: Seq<T>)
    requires
        size.len() <= u16::MAX,
        data.len() <= u32::MAX,
    ensures
        decode_block::<T>(encode_block(size.len() as u16, size, data)) == Ok::<
            (Seq<u32>, Seq<T>),
            N5Error,
        >((size, data)),
{
    let ndim = size.len() as u16;
    let n = data.len() as u32;
    assert(width::<u32>() == 4);
    let mode = block_mode(size, n as int);
    let tail = if mode == 0 {
        Seq::<u8>::empty()
    } else {
        be32(n)
    };
    let pre = be16(mode) + be16(ndim);
    let header = encode_header(ndim, size, n);
    let b = encode_block(ndim, size, data);
    lemma_encode_len(size);
    lemma_encode_len(data);
    assert(header =~= pre + encode_elems(size) + tail);
    assert(b =~= pre + encode_elems(size) + (tail + encode_elems(data)));
    lemma_be16(mode);
    lemma_be16(ndim);
    assert(b.subrange(0, 2) =~= be16(mode));
    assert(b.subrange(2, 4) =~= be16(ndim));
    lemma_elems_round_trip(pre, size, tail + encode_elems(data));
    let len = 4 + 4 * size.len();
    assert(b =~= header + encode_elems(data) + Seq::<u8>::empty());
    lemma_elems_round_trip(header, data, Seq::<u8>::empty());
    if mode == 1 {
        lemma_be32(n);
        assert(b.subrange(len as int, len as int + 4) =~= be32(n));
    }
}

} // verus!
