use n5::compression::{CompressionType, RawCompression};
use n5::{
    BlockCoord, BlockHeader, DataBlock, DataBlockCreator, DataType, DatasetAttributes, DefaultBlock,
    DefaultBlockHeaderReader, DefaultBlockReader, DefaultBlockWriter, GridCoord, N5Error,
    ReadableDataBlock, ReflectedType, ReinitDataBlock, TypeReflection, VecDataBlock,
    WriteableDataBlock,
};

fn attrs(dims: Vec<u64>, block: Vec<u32>, dt: DataType) -> DatasetAttributes {
    DatasetAttributes::new(
        GridCoord::from_slice(&dims),
        BlockCoord::from_slice(&block),
        dt,
        CompressionType::Raw(RawCompression::default()),
    )
}

fn be_bytes<T: ReflectedType>(v: T) -> Vec<u8> {
    let mut out = Vec::new();
    v.write_be(&mut out);
    out
}

#[test]
fn data_type_widths() {
    assert_eq!(DataType::UINT8.size_of(), 1);
    assert_eq!(DataType::INT8.size_of(), 1);
    assert_eq!(DataType::UINT16.size_of(), 2);
    assert_eq!(DataType::INT16.size_of(), 2);
    assert_eq!(DataType::UINT32.size_of(), 4);
    assert_eq!(DataType::INT32.size_of(), 4);
    assert_eq!(DataType::FLOAT32.size_of(), 4);
    assert_eq!(DataType::UINT64.size_of(), 8);
    assert_eq!(DataType::INT64.size_of(), 8);
    assert_eq!(DataType::FLOAT64.size_of(), 8);
    assert_eq!(DataType::FLOAT64.name(), "float64");
    assert_eq!(DataType::UINT16.name(), "uint16");
}

#[test]
fn type_reflection() {
    assert_eq!(<DataType as TypeReflection<u8>>::get_type_variant(), DataType::UINT8);
    assert_eq!(<DataType as TypeReflection<i64>>::get_type_variant(), DataType::INT64);
    assert_eq!(<i16 as ReflectedType>::variant(), DataType::INT16);
    assert_eq!(<u32 as ReflectedType>::variant(), DataType::UINT32);
}

#[test]
fn big_endian_elements() {
    assert_eq!(be_bytes(0x0102u16), vec![1, 2]);
    assert_eq!(be_bytes(-2i16), vec![0xff, 0xfe]);
    assert_eq!(be_bytes(0x01020304u32), vec![1, 2, 3, 4]);
    assert_eq!(be_bytes(-1i32), vec![0xff; 4]);
    assert_eq!(be_bytes(0x0102030405060708u64), vec![1, 2, 3, 4, 5, 6, 7, 8]);
    assert_eq!(be_bytes(i64::MIN), vec![0x80, 0, 0, 0, 0, 0, 0, 0]);
    assert_eq!(be_bytes(-3i8), vec![0xfd]);
    assert_eq!(be_bytes(200u8), vec![200]);
    assert_eq!(<u32 as ReflectedType>::read_be(&[9, 1, 2, 3, 4], 1), 0x01020304);
    assert_eq!(<i16 as ReflectedType>::read_be(&[0x80, 0x00], 0), i16::MIN);
}

#[test]
fn geometry() {
    let a = attrs(vec![50, 40, 30], vec![11, 10, 10], DataType::UINT8);
    assert_eq!(a.get_num_blocks(), 60);
    assert_eq!(a.get_grid_extent().as_slice(), &[5, 4, 3]);
    assert!(a.in_bounds(&GridCoord::from_slice(&[4, 3, 2])));
    assert!(!a.in_bounds(&GridCoord::from_slice(&[5, 3, 2])));
    assert!(!a.in_bounds(&GridCoord::from_slice(&[4, 3])));
    assert_eq!(a.get_ndim(), 3);
    assert_eq!(a.get_num_elements(), 60000);
    assert_eq!(a.get_block_num_elements(), 1100);

    let b = attrs(vec![10, 10, 10], vec![5, 5, 5], DataType::INT32);
    assert_eq!(b.get_num_blocks(), 8);

    let c = attrs(vec![9, 4, 1, 10, 0], vec![5, 5, 1, 1, 3], DataType::UINT16);
    assert_eq!(c.get_grid_extent().as_slice(), &[2, 1, 1, 10, 0]);
    assert_eq!(c.get_num_blocks(), 0);
    assert_eq!(c.get_num_elements(), 0);
}

#[test]
fn full_block_round_trip() {
    let a = attrs(vec![10, 10, 10], vec![5, 5, 5], DataType::INT32);
    let data: Vec<i32> = (0..125).collect();
    let block = VecDataBlock::new(BlockCoord::from_slice(&[5, 5, 5]), GridCoord::from_slice(&[0, 0, 0]), data.clone());
    let bytes = DefaultBlock::write_block(&a, &block);
    assert_eq!(&bytes[0..4], &[0, 0, 0, 3]);
    assert_eq!(&bytes[4..16], &[0, 0, 0, 5, 0, 0, 0, 5, 0, 0, 0, 5]);
    assert_eq!(bytes.len(), 16 + 125 * 4);
    assert_eq!(&bytes[16..24], &[0, 0, 0, 0, 0, 0, 0, 1]);
    let out = <DefaultBlock as DefaultBlockReader<i32>>::read_block(&bytes, &a, GridCoord::from_slice(&[1, 0, 1])).unwrap();
    assert_eq!(out.get_data(), &data[..]);
    assert_eq!(out.get_size(), &[5, 5, 5]);
    assert_eq!(out.get_grid_position(), &[1, 0, 1]);
}

#[test]
fn edge_block_modes() {
    let a = attrs(vec![7, 7, 7], vec![5, 5, 5], DataType::UINT16);
    let full = VecDataBlock::new(BlockCoord::from_slice(&[2, 2, 2]), GridCoord::from_slice(&[1, 1, 1]), vec![1u16, 2, 3, 4, 5, 6, 7, 8]);
    let bytes = DefaultBlock::write_block(&a, &full);
    assert_eq!(&bytes[0..2], &[0, 0]);
    assert_eq!(bytes.len(), 16 + 16);

    let short = VecDataBlock::new(BlockCoord::from_slice(&[2, 2, 2]), GridCoord::from_slice(&[1, 1, 1]), vec![9u16, 8, 7, 6]);
    let bytes = DefaultBlock::write_block(&a, &short);
    assert_eq!(&bytes[0..2], &[0, 1]);
    assert_eq!(&bytes[16..20], &[0, 0, 0, 4]);
    assert_eq!(&bytes[20..], &[0, 9, 0, 8, 0, 7, 0, 6]);
    let out = <DefaultBlock as DefaultBlockReader<u16>>::read_block(&bytes, &a, GridCoord::from_slice(&[1, 1, 1])).unwrap();
    assert_eq!(out.get_data(), &[9, 8, 7, 6]);
    assert_eq!(out.get_size(), &[2, 2, 2]);
}

#[test]
fn block_decode_errors() {
    let a = attrs(vec![4], vec![4], DataType::UINT8);
    assert_eq!(<DefaultBlock as DefaultBlockReader<i8>>::read_block(&[0, 0, 0, 1, 0, 0, 0, 1, 5], &a, GridCoord::from_slice(&[0])).err(), Some(N5Error::InvalidInput));
    assert_eq!(<DefaultBlock as DefaultBlockReader<u8>>::read_block(&[0, 2, 0, 1, 0, 0, 0, 1, 5], &a, GridCoord::from_slice(&[0])).err(), Some(N5Error::InvalidData));
    assert_eq!(<DefaultBlock as DefaultBlockReader<u8>>::read_block(&[0, 0, 0], &a, GridCoord::from_slice(&[0])).err(), Some(N5Error::Io));
    assert_eq!(<DefaultBlock as DefaultBlockReader<u8>>::read_block(&[0, 0, 0, 1, 0, 0], &a, GridCoord::from_slice(&[0])).err(), Some(N5Error::Io));
    assert_eq!(<DefaultBlock as DefaultBlockReader<u8>>::read_block(&[0, 0, 0, 1, 0, 0, 0, 3, 1, 2], &a, GridCoord::from_slice(&[0])).err(), Some(N5Error::Io));
    assert_eq!(<DefaultBlock as DefaultBlockReader<u8>>::read_block(&[0, 1, 0, 1, 0, 0, 0, 3, 0, 0], &a, GridCoord::from_slice(&[0])).err(), Some(N5Error::Io));
    let overflow = [0, 0, 0, 2, 0xff, 0xff, 0xff, 0xff, 0, 0, 0, 2];
    assert_eq!(<DefaultBlock as DefaultBlockReader<u8>>::read_block(&overflow, &a, GridCoord::from_slice(&[0])).err(), Some(N5Error::InvalidData));
    let ok = <DefaultBlock as DefaultBlockReader<u8>>::read_block(&[0, 0, 0, 1, 0, 0, 0, 2, 7, 8, 99], &a, GridCoord::from_slice(&[0])).unwrap();
    assert_eq!(ok.get_data(), &[7, 8]);
}

#[test]
fn block_header_read() {
    let (h, len) = DefaultBlock::read_block_header(&[0, 1, 0, 2, 0, 0, 0, 3, 0, 0, 0, 4, 0, 0, 0, 5], GridCoord::from_slice(&[6, 7])).unwrap();
    assert_eq!(h.size.as_slice(), &[3, 4]);
    assert_eq!(h.num_el, 5);
    assert_eq!(h.grid_position.as_slice(), &[6, 7]);
    assert_eq!(len, 16);
}

#[test]
fn block_buffer_reuse() {
    let a = attrs(vec![8], vec![4], DataType::INT64);
    let src = VecDataBlock::new(BlockCoord::from_slice(&[4]), GridCoord::from_slice(&[1]), vec![-1i64, 2, -3, 4]);
    let bytes = DefaultBlock::write_block(&a, &src);
    let mut target = VecDataBlock::new(BlockCoord::from_slice(&[9]), GridCoord::from_slice(&[9]), vec![0i64; 9]);
    DefaultBlock::read_block_into(&bytes, &a, GridCoord::from_slice(&[1]), &mut target).unwrap();
    assert_eq!(target.get_data(), &[-1, 2, -3, 4]);
    assert_eq!(target.get_grid_position(), &[1]);
    let before: Vec<i64> = target.get_data().to_vec();
    assert_eq!(DefaultBlock::read_block_into(&[0, 7], &a, GridCoord::from_slice(&[1]), &mut target).err(), Some(N5Error::Io));
    assert_eq!(target.get_data(), &before[..]);

    target.reinitialize(BlockHeader { size: BlockCoord::from_slice(&[2]), grid_position: GridCoord::from_slice(&[0]), num_el: 6 });
    assert_eq!(target.get_data(), &[-1, 2, -3, 4, 0, 0]);
    target.reinitialize_with(&src);
    assert_eq!(target.get_data(), &[-1, 2, -3, 4]);
    assert_eq!(target.get_size(), &[4]);

    let mut payload = Vec::new();
    src.write_data(&mut payload);
    assert_eq!(payload.len(), 32);
    let mut again = VecDataBlock::new(BlockCoord::from_slice(&[4]), GridCoord::from_slice(&[1]), vec![0i64; 4]);
    again.read_data(&payload).unwrap();
    assert_eq!(again.get_data(), &[-1, 2, -3, 4]);
    assert_eq!(again.read_data(&payload[..5]).err(), Some(N5Error::Io));
    assert_eq!(src.get_num_elements(), 4);
    assert_eq!(src.get_header().num_el, 4);
    assert_eq!(src.into_data(), vec![-1, 2, -3, 4]);
}

#[test]
fn create_zero_blocks() {
    let header = BlockHeader { size: BlockCoord::from_slice(&[2, 2]), grid_position: GridCoord::from_slice(&[3, 4]), num_el: 4 };
    let made: Option<VecDataBlock<u32>> = DataType::UINT32.create_data_block(header);
    let made = made.unwrap();
    assert_eq!(made.get_data(), &[0, 0, 0, 0]);
    assert_eq!(made.get_grid_position(), &[3, 4]);
    let header = BlockHeader { size: BlockCoord::from_slice(&[2]), grid_position: GridCoord::from_slice(&[0]), num_el: 2 };
    let wrong: Option<VecDataBlock<u32>> = DataType::INT32.create_data_block(header);
    assert!(wrong.is_none());
}
