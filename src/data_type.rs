//! Element data types and their big-endian byte encodings.
use vstd::prelude::*;

verus! {

/// Data types representable in N5.
#[derive(PartialEq, Eq, Structural, Debug, Clone, Copy)]
pub enum DataType {
    UINT8,
    UINT16,
    UINT32,
    UINT64,
    INT8,
    INT16,
    INT32,
    INT64,
    FLOAT32,
    FLOAT64,
}

impl DataType {
    /// Width in bytes of one element of this type.
    pub open spec fn spec_size_of(self) -> nat {
        match self {
            DataType::UINT8 | DataType::INT8 => 1,
            DataType::UINT16 | DataType::INT16 => 2,
            DataType::UINT32 | DataType::INT32 | DataType::FLOAT32 => 4,
            DataType::UINT64 | DataType::INT64 | DataType::FLOAT64 => 8,
        }
    }

    /// Width in bytes of one element of this type.
    pub fn size_of(self) -> (r: usize)
        ensures
            r == self.spec_size_of(),
    {
        match self {
            DataType::UINT8 | DataType::INT8 => 1,
            DataType::UINT16 | DataType::INT16 => 2,
            DataType::UINT32 | DataType::INT32 | DataType::FLOAT32 => 4,
            DataType::UINT64 | DataType::INT64 | DataType::FLOAT64 => 8,
        }
    }

    /// The lowercase name of the type, as it appears in attribute files.
    pub fn name(self) -> (r: &'static str)
        ensures
            r@ == self.spec_name(),
    {
        proof {
            reveal_strlit("uint8");
            reveal_strlit("uint16");
            reveal_strlit("uint32");
            reveal_strlit("uint64");
            reveal_strlit("int8");
            reveal_strlit("int16");
            reveal_strlit("int32");
            reveal_strlit("int64");
            reveal_strlit("float32");
            reveal_strlit("float64");
        }
        match self {
            DataType::UINT8 => "uint8",
            DataType::UINT16 => "uint16",
            DataType::UINT32 => "uint32",
            DataType::UINT64 => "uint64",
            DataType::INT8 => "int8",
            DataType::INT16 => "int16",
            DataType::INT32 => "int32",
            DataType::INT64 => "int64",
            DataType::FLOAT32 => "float32",
            DataType::FLOAT64 => "float64",
        }
    }

    pub open spec fn spec_name(self) -> Seq<char> {
        match self {
            DataType::UINT8 => "uint8"@,
            DataType::UINT16 => "uint16"@,
            DataType::UINT32 => "uint32"@,
            DataType::UINT64 => "uint64"@,
            DataType::INT8 => "int8"@,
            DataType::INT16 => "int16"@,
            DataType::INT32 => "int32"@,
            DataType::INT64 => "int64"@,
            DataType::FLOAT32 => "float32"@,
            DataType::FLOAT64 => "float64"@,
        }
    }
}


/// Big-endian encoding of a 16-bit word.
pub open spec fn be16(v: u16) -> Seq<u8> {
    seq![(v >> 8u16) as u8, v as u8]
}

/// The 16-bit word whose big-endian encoding starts `b`.
pub open spec fn from_be16(b: Seq<u8>) -> u16 {
    (((b[0] as u16) << 8u16) | (b[1] as u16)) as u16
}

/// Big-endian encoding of a 32-bit word.
pub open spec fn be32(v: u32) -> Seq<u8> {
    seq![(v >> 24u32) as u8, (v >> 16u32) as u8, (v >> 8u32) as u8, v as u8]
}

/// The 32-bit word whose big-endian encoding starts `b`.
pub open spec fn from_be32(b: Seq<u8>) -> u32 {
    (((b[0] as u32) << 24u32) | ((b[1] as u32) << 16u32) | ((b[2] as u32) << 8u32) | (
    b[3] as u32)) as u32
}

/// Big-endian encoding of a 64-bit word.
pub open spec fn be64(v: u64) -> Seq<u8> {
    seq![
        (v >> 56u64) as u8,
        (v >> 48u64) as u8,
        (v >> 40u64) as u8,
        (v >> 32u64) as u8,
        (v >> 24u64) as u8,
        (v >> 16u64) as u8,
        (v >> 8u64) as u8,
        v as u8,
    ]
}

/// The 64-bit word whose big-endian encoding starts `b`.
pub open spec fn from_be64(b: Seq<u8>) -> u64 {
    (((b[0] as u64) << 56u64) | ((b[1] as u64) << 48u64) | ((b[2] as u64) << 40u64) | ((
    b[3] as u64) << 32u64) | ((b[4] as u64) << 24u64) | ((b[5] as u64) << 16u64) | ((
    b[6] as u64) << 8u64) | (b[7] as u64)) as u64
}

pub proof fn lemma_be16(v: u16)
    ensures
        from_be16(be16(v)) == v,
{
    let b = be16(v);
    let (b0, b1) = (b[0], b[1]);
    assert(b0 == (v >> 8u16) as u8 && b1 == v as u8);
    assert((((((v >> 8u16) as u8) as u16) << 8u16) | ((v as u8) as u16)) == v) by (bit_vector);
}

pub proof fn lemma_be32(v: u32)
    ensures
        from_be32(be32(v)) == v,
{
    let b = be32(v);
    assert(b[0] == (v >> 24u32) as u8 && b[1] == (v >> 16u32) as u8 && b[2] == (v >> 8u32) as u8
        && b[3] == v as u8);
    assert((((((v >> 24u32) as u8) as u32) << 24u32) | ((((v >> 16u32) as u8) as u32) << 16u32)
        | ((((v >> 8u32) as u8) as u32) << 8u32) | ((v as u8) as u32)) == v) by (bit_vector);
}

pub proof fn lemma_be64(v: u64)
    ensures
        from_be64(be64(v)) == v,
{
    let b = be64(v);
    assert(b[0] == (v >> 56u64) as u8 && b[1] == (v >> 48u64) as u8 && b[2] == (v >> 40u64) as u8
        && b[3] == (v >> 32u64) as u8 && b[4] == (v >> 24u64) as u8 && b[5] == (v >> 16u64) as u8
        && b[6] == (v >> 8u64) as u8 && b[7] == v as u8);
    assert((((((v >> 56u64) as u8) as u64) << 56u64) | ((((v >> 48u64) as u8) as u64) << 48u64)
        | ((((v >> 40u64) as u8) as u64) << 40u64) | ((((v >> 32u64) as u8) as u64) << 32u64) | ((((
    v >> 24u64) as u8) as u64) << 24u64) | ((((v >> 16u64) as u8) as u64) << 16u64) | ((((v
        >> 8u64) as u8) as u64) << 8u64) | ((v as u8) as u64)) == v) by (bit_vector);
}

pub(crate) fn push_be16(v: u16, out: &mut Vec<u8>)
    ensures
        final(out)@ == old(out)@ + be16(v),
{
    out.push((v >> 8u16) as u8);
    out.push(v as u8);
    assert(final(out)@ =~= old(out)@ + be16(v));
}

pub(crate) fn push_be32(v: u32, out: &mut Vec<u8>)
    ensures
        final(out)@ == old(out)@ + be32(v),
{
    out.push((v >> 24u32) as u8);
    out.push((v >> 16u32) as u8);
    out.push((v >> 8u32) as u8);
    out.push(v as u8);
    assert(final(out)@ =~= old(out)@ + be32(v));
}

pub(crate) fn push_be64(v: u64, out: &mut Vec<u8>)
    ensures
        final(out)@ == old(out)@ + be64(v),
{
    out.push((v >> 56u64) as u8);
    out.push((v >> 48u64) as u8);
    out.push((v >> 40u64) as u8);
    out.push((v >> 32u64) as u8);
    out.push((v >> 24u64) as u8);
    out.push((v >> 16u64) as u8);
    out.push((v >> 8u64) as u8);
    out.push(v as u8);
    assert(final(out)@ =~= old(out)@ + be64(v));
}

pub(crate) fn read_be16(b: &[u8], pos: usize) -> (r: u16)
    requires
        pos + 2 <= b@.len(),
    ensures
        r == from_be16(b@.subrange(pos as int, pos + 2)),
{
    ((b[pos] as u16) << 8u16) | (b[pos + 1] as u16)
}

pub(crate) fn read_be32(b: &[u8], pos: usize) -> (r: u32)
    requires
        pos + 4 <= b@.len(),
    ensures
        r == from_be32(b@.subrange(pos as int, pos + 4)),
{
    ((b[pos] as u32) << 24u32) | ((b[pos + 1] as u32) << 16u32) | ((b[pos + 2] as u32) << 8u32)
        | (b[pos + 3] as u32)
}

pub(crate) fn read_be64(b: &[u8], pos: usize) -> (r: u64)
    requires
        pos + 8 <= b@.len(),
    ensures
        r == from_be64(b@.subrange(pos as int, pos + 8)),
{
    ((b[pos] as u64) << 56u64) | ((b[pos + 1] as u64) << 48u64) | ((b[pos + 2] as u64) << 40u64)
        | ((b[pos + 3] as u64) << 32u64) | ((b[pos + 4] as u64) << 24u64) | ((b[pos + 5] as u64)
        << 16u64) | ((b[pos + 6] as u64) << 8u64) | (b[pos + 7] as u64)
}

/// A fixed-width primitive that stands for one `DataType` tag, with its
/// big-endian element encoding.
pub trait ReflectedType: Sized + Copy {
    /// The tag of this element type.
    spec fn spec_variant() -> DataType;

    /// The big-endian bytes of one element.
    spec fn spec_to_be(v: Self) -> Seq<u8>;

    /// The element whose big-endian bytes start `b`.
    spec fn spec_from_be(b: Seq<u8>) -> Self;

    fn variant() -> (r: DataType)
        ensures
            r == Self::spec_variant(),
    ;

    /// The zero element.
    spec fn spec_zero() -> Self;

    /// The zero element.
    fn zero() -> (r: Self)
        ensures
            r == Self::spec_zero(),
    ;

    /// Appends the big-endian bytes of `self` to `out`.
    fn write_be(&self, out: &mut Vec<u8>)
        ensures
            final(out)@ == old(out)@ + Self::spec_to_be(*self),
    ;

    /// Reads one element from the bytes of `b` that start at `pos`.
    fn read_be(b: &[u8], pos: usize) -> (r: Self)
        requires
            pos + Self::spec_variant().spec_size_of() <= b@.len(),
        ensures
            r == Self::spec_from_be(
                b@.subrange(pos as int, pos + Self::spec_variant().spec_size_of()),
            ),
    ;

    /// An element's encoding has the width of its tag and decodes back to it.
    proof fn lemma_encoding(v: Self)
        ensures
            Self::spec_to_be(v).len() == Self::spec_variant().spec_size_of(),
            Self::spec_from_be(Self::spec_to_be(v)) == v,
    ;
}

/// Reflects a primitive element type to its tag.
pub trait TypeReflection<T: ReflectedType>: Sized {
    fn get_type_variant() -> (r: DataType)
        ensures
            r == T::spec_variant(),
    ;
}

impl ReflectedType for u8 {
    open spec fn spec_variant() -> DataType {
        DataType::UINT8
    }

    open spec fn spec_to_be(v: u8) -> Seq<u8> {
        seq![v]
    }

    open spec fn spec_from_be(b: Seq<u8>) -> u8 {
        b[0]
    }

    fn variant() -> (r: DataType) {
        DataType::UINT8
    }

    open spec fn spec_zero() -> u8 {
        0
    }

    fn zero() -> u8 {
        0
    }

    fn write_be(&self, out: &mut Vec<u8>) {
        out.push(*self);
        assert(final(out)@ =~= old(out)@ + Self::spec_to_be(*self));
    }

    fn read_be(b: &[u8], pos: usize) -> (r: u8) {
        b[pos]
    }

    proof fn lemma_encoding(v: u8) {
        
    }
}

impl TypeReflection<u8> for DataType {
    fn get_type_variant() -> (r: DataType) {
        DataType::UINT8
    }
}

impl ReflectedType for i8 {
    open spec fn spec_variant() -> DataType {
        DataType::INT8
    }

    open spec fn spec_to_be(v: i8) -> Seq<u8> {
        seq![v as u8]
    }

    open spec fn spec_from_be(b: Seq<u8>) -> i8 {
        b[0] as i8
    }

    fn variant() -> (r: DataType) {
        DataType::INT8
    }

    open spec fn spec_zero() -> i8 {
        0
    }

    fn zero() -> i8 {
        0
    }

    fn write_be(&self, out: &mut Vec<u8>) {
        out.push(*self as u8);
        assert(final(out)@ =~= old(out)@ + Self::spec_to_be(*self));
    }

    fn read_be(b: &[u8], pos: usize) -> (r: i8) {
        b[pos] as i8
    }

    proof fn lemma_encoding(v: i8) {
        assert((v as u8) as i8 == v) by (bit_vector);
    }
}

impl TypeReflection<i8> for DataType {
    fn get_type_variant() -> (r: DataType) {
        DataType::INT8
    }
}

impl ReflectedType for u16 {
    open spec fn spec_variant() -> DataType {
        DataType::UINT16
    }

    open spec fn spec_to_be(v: u16) -> Seq<u8> {
        be16(v)
    }

    open spec fn spec_from_be(b: Seq<u8>) -> u16 {
        from_be16(b)
    }

    fn variant() -> (r: DataType) {
        DataType::UINT16
    }

    open spec fn spec_zero() -> u16 {
        0
    }

    fn zero() -> u16 {
        0
    }

    fn write_be(&self, out: &mut Vec<u8>) {
        push_be16(*self, out);
        
    }

    fn read_be(b: &[u8], pos: usize) -> (r: u16) {
        read_be16(b, pos)
    }

    proof fn lemma_encoding(v: u16) {
        lemma_be16(v);
    }
}

impl TypeReflection<u16> for DataType {
    fn get_type_variant() -> (r: DataType) {
        DataType::UINT16
    }
}

impl ReflectedType for i16 {
    open spec fn spec_variant() -> DataType {
        DataType::INT16
    }

    open spec fn spec_to_be(v: i16) -> Seq<u8> {
        be16(v as u16)
    }

    open spec fn spec_from_be(b: Seq<u8>) -> i16 {
        from_be16(b) as i16
    }

    fn variant() -> (r: DataType) {
        DataType::INT16
    }

    open spec fn spec_zero() -> i16 {
        0
    }

    fn zero() -> i16 {
        0
    }

    fn write_be(&self, out: &mut Vec<u8>) {
        push_be16(*self as u16, out);
        
    }

    fn read_be(b: &[u8], pos: usize) -> (r: i16) {
        read_be16(b, pos) as i16
    }

    proof fn lemma_encoding(v: i16) {
        lemma_be16(v as u16); assert((v as u16) as i16 == v) by (bit_vector);
    }
}

impl TypeReflection<i16> for DataType {
    fn get_type_variant() -> (r: DataType) {
        DataType::INT16
    }
}

impl ReflectedType for u32 {
    open spec fn spec_variant() -> DataType {
        DataType::UINT32
    }

    open spec fn spec_to_be(v: u32) -> Seq<u8> {
        be32(v)
    }

    open spec fn spec_from_be(b: Seq<u8>) -> u32 {
        from_be32(b)
    }

    fn variant() -> (r: DataType) {
        DataType::UINT32
    }

    open spec fn spec_zero() -> u32 {
        0
    }

    fn zero() -> u32 {
        0
    }

    fn write_be(&self, out: &mut Vec<u8>) {
        push_be32(*self, out);
        
    }

    fn read_be(b: &[u8], pos: usize) -> (r: u32) {
        read_be32(b, pos)
    }

    proof fn lemma_encoding(v: u32) {
        lemma_be32(v);
    }
}

impl TypeReflection<u32> for DataType {
    fn get_type_variant() -> (r: DataType) {
        DataType::UINT32
    }
}

impl ReflectedType for i32 {
    open spec fn spec_variant() -> DataType {
        DataType::INT32
    }

    open spec fn spec_to_be(v: i32) -> Seq<u8> {
        be32(v as u32)
    }

    open spec fn spec_from_be(b: Seq<u8>) -> i32 {
        from_be32(b) as i32
    }

    fn variant() -> (r: DataType) {
        DataType::INT32
    }

    open spec fn spec_zero() -> i32 {
        0
    }

    fn zero() -> i32 {
        0
    }

    fn write_be(&self, out: &mut Vec<u8>) {
        push_be32(*self as u32, out);
        
    }

    fn read_be(b: &[u8], pos: usize) -> (r: i32) {
        read_be32(b, pos) as i32
    }

    proof fn lemma_encoding(v: i32) {
        lemma_be32(v as u32); assert((v as u32) as i32 == v) by (bit_vector);
    }
}

impl TypeReflection<i32> for DataType {
    fn get_type_variant() -> (r: DataType) {
        DataType::INT32
    }
}

impl ReflectedType for u64 {
    open spec fn spec_variant() -> DataType {
        DataType::UINT64
    }

    open spec fn spec_to_be(v: u64) -> Seq<u8> {
        be64(v)
    }

    open spec fn spec_from_be(b: Seq<u8>) -> u64 {
        from_be64(b)
    }

    fn variant() -> (r: DataType) {
        DataType::UINT64
    }

    open spec fn spec_zero() -> u64 {
        0
    }

    fn zero() -> u64 {
        0
    }

    fn write_be(&self, out: &mut Vec<u8>) {
        push_be64(*self, out);
        
    }

    fn read_be(b: &[u8], pos: usize) -> (r: u64) {
        read_be64(b, pos)
    }

    proof fn lemma_encoding(v: u64) {
        lemma_be64(v);
    }
}

impl TypeReflection<u64> for DataType {
    fn get_type_variant() -> (r: DataType) {
        DataType::UINT64
    }
}

impl ReflectedType for i64 {
    open spec fn spec_variant() -> DataType {
        DataType::INT64
    }

    open spec fn spec_to_be(v: i64) -> Seq<u8> {
        be64(v as u64)
    }

    open spec fn spec_from_be(b: Seq<u8>) -> i64 {
        from_be64(b) as i64
    }

    fn variant() -> (r: DataType) {
        DataType::INT64
    }

    open spec fn spec_zero() -> i64 {
        0
    }

    fn zero() -> i64 {
        0
    }

    fn write_be(&self, out: &mut Vec<u8>) {
        push_be64(*self as u64, out);
        
    }

    fn read_be(b: &[u8], pos: usize) -> (r: i64) {
        read_be64(b, pos) as i64
    }

    proof fn lemma_encoding(v: i64) {
        lemma_be64(v as u64); assert((v as u64) as i64 == v) by (bit_vector);
    }
}

impl TypeReflection<i64> for DataType {
    fn get_type_variant() -> (r: DataType) {
        DataType::INT64
    }
}

} // verus!
