use n5::compression::{CompressionType, RawCompression};
use n5::json::{copy_json, merge};
use n5::version::{library_version, version_attributes, version_from_attributes};
use n5::{
    BlockCoord, DataBlock, DataType, DatasetAttributes, GridCoord, JsonValue, N5Error, N5Filesystem,
    VecDataBlock,
};

const ROOT: &str = "/tmp/rust_n5_tests";

fn obj(entries: Vec<(&str, JsonValue)>) -> JsonValue {
    JsonValue::Object(entries.into_iter().map(|(k, v)| (k.to_string(), v)).collect())
}

fn text(x: &str) -> JsonValue {
    JsonValue::String(x.to_string())
}

fn get<'a>(v: &'a JsonValue, key: &str) -> Option<&'a JsonValue> {
    match v {
        JsonValue::Object(entries) => entries.iter().find(|(k, _)| k == key).map(|(_, x)| x),
        _ => None,
    }
}

fn int32_attrs(dims: Vec<u64>, block: Vec<u32>) -> DatasetAttributes {
    DatasetAttributes::new(
        GridCoord::from_slice(&dims),
        BlockCoord::from_slice(&block),
        DataType::INT32,
        CompressionType::Raw(RawCompression::default()),
    )
}

#[test]
fn create_filesystem() {
    let mut root = obj(vec![]);
    let create = N5Filesystem::open_or_create(ROOT, &root).expect("Failed to create N5 filesystem");
    merge(&mut root, &version_attributes());
    merge(&mut root, &obj(vec![("foo", text("bar"))]));

    let read = N5Filesystem::open(ROOT, Some(&root)).expect("Failed to open N5 filesystem");

    assert_eq!(version_from_attributes(&root).expect("Cannot read version"), library_version());
    assert!(matches!(get(&root, "foo"), Some(JsonValue::String(x)) if x == "bar"));
    assert_eq!(create.base_path(), read.base_path());
}

#[test]
fn reject_exterior_paths() {
    let create = N5Filesystem::open_or_create(ROOT, &obj(vec![])).expect("Failed to create N5 filesystem");

    assert!(create.get_path("/").is_err());
    assert!(create.get_path("..").is_err());
    assert!(create.get_path("foo/bar/baz/../../..").is_ok());
    assert!(create.get_path("foo/bar/baz/../../../..").is_err());
}

#[test]
fn create_block_rw() {
    let create = N5Filesystem::open_or_create(ROOT, &obj(vec![])).expect("Failed to create N5 filesystem");
    let data_attrs = int32_attrs(vec![10, 10, 10], vec![5, 5, 5]);
    let block_data: Vec<i32> = (0..125_i32).collect();
    let block_in = VecDataBlock::new(
        BlockCoord::from_slice(data_attrs.get_block_size()),
        GridCoord::from_slice(&[0, 0, 0]),
        block_data.clone(),
    );

    let (path, bytes) = create.write_block("foo/bar", &data_attrs, &block_in).expect("Failed to write block");
    assert_eq!(path, "/tmp/rust_n5_tests/foo/bar/0/0/0");

    let read = N5Filesystem::open(ROOT, Some(&version_attributes())).expect("Failed to open N5 filesystem");
    let block_out = read
        .read_block::<i32>("foo/bar", &data_attrs, GridCoord::from_slice(&[0, 0, 0]), Some(&bytes))
        .expect("Failed to read block")
        .expect("Block is empty");
    let missing_block_out = read
        .read_block::<i32>("foo/bar", &data_attrs, GridCoord::from_slice(&[0, 0, 1]), None)
        .expect("Failed to read block");

    assert_eq!(block_out.get_data(), &block_data[..]);
    assert!(missing_block_out.is_none());
}

#[test]
fn containment_of_paths() {
    let fs = N5Filesystem::open_or_create(ROOT, &obj(vec![])).unwrap();
    assert_eq!(fs.get_path("/").unwrap_err(), N5Error::NotFound);
    assert!(fs.get_path("..").is_err());
    assert!(fs.get_path("a/../..").is_err());
    assert!(fs.get_path("foo/../..").is_err());
    assert!(fs.get_path("a/b/c/../../..").is_ok());
    assert!(fs.get_path("a/b/c/../../../..").is_err());
    assert!(fs.get_path("./a/./../b//c/").is_ok());
    assert!(fs.get_path("../a").is_err());
    assert_eq!(fs.get_path("").unwrap(), ROOT);
    assert_eq!(fs.get_path("foo/bar").unwrap(), "/tmp/rust_n5_tests/foo/bar");
}

#[test]
fn block_and_attribute_paths() {
    let fs = N5Filesystem::open_or_create("/data/c", &obj(vec![])).unwrap();
    assert_eq!(fs.get_data_block_path("ds", &[0, 12, 345]).unwrap(), "/data/c/ds/0/12/345");
    assert_eq!(fs.get_block_uri("ds", &[18446744073709551615]).unwrap(), "/data/c/ds/18446744073709551615");
    assert_eq!(fs.get_attributes_path("g").unwrap(), "/data/c/g/attributes.json");
    assert_eq!(fs.get_attributes_path("").unwrap(), "/data/c/attributes.json");
    assert_eq!(fs.get_data_block_path("..", &[1]).unwrap_err(), N5Error::NotFound);
}

#[test]
fn version_handshake() {
    let root = version_attributes();
    assert!(matches!(get(&root, "n5"), Some(JsonValue::String(x)) if x == "2.1.3"));
    let fs = N5Filesystem::open(ROOT, Some(&root)).unwrap();
    assert_eq!(fs.base_path(), ROOT);

    let mut newer = copy_json(&root);
    merge(&mut newer, &obj(vec![("n5", text("99.0.0"))]));
    assert_eq!(N5Filesystem::open(ROOT, Some(&newer)).err(), Some(N5Error::Incompatible));
    assert_eq!(N5Filesystem::open_or_create(ROOT, &newer).err(), Some(N5Error::Incompatible));

    let older = obj(vec![("n5", text("1.9.0"))]);
    assert!(N5Filesystem::open(ROOT, Some(&older)).is_ok());
    let minor_drift = obj(vec![("n5", text("2.7.0"))]);
    assert!(N5Filesystem::open(ROOT, Some(&minor_drift)).is_ok());
}

#[test]
fn version_errors() {
    assert_eq!(N5Filesystem::open(ROOT, None).err(), Some(N5Error::NotFound));
    assert_eq!(N5Filesystem::open(ROOT, Some(&obj(vec![]))).err(), Some(N5Error::NotFound));
    let bad = obj(vec![("n5", text("not a version"))]);
    assert_eq!(N5Filesystem::open(ROOT, Some(&bad)).err(), Some(N5Error::InvalidData));
    assert!(N5Filesystem::open_or_create(ROOT, &bad).is_ok());
    let not_text = obj(vec![("n5", JsonValue::Number("2".to_string()))]);
    assert_eq!(version_from_attributes(&not_text), Err(N5Error::InvalidData));
}

#[test]
fn read_block_of_wrong_type() {
    let fs = N5Filesystem::open_or_create(ROOT, &obj(vec![])).unwrap();
    let attrs = int32_attrs(vec![10, 10, 10], vec![5, 5, 5]);
    let block = VecDataBlock::new(BlockCoord::from_slice(&[5, 5, 5]), GridCoord::from_slice(&[0, 0, 0]), vec![7i32; 125]);
    let (_, bytes) = fs.write_block("foo/bar", &attrs, &block).unwrap();
    let r = fs.read_block::<u8>("foo/bar", &attrs, GridCoord::from_slice(&[0, 0, 0]), Some(&bytes));
    assert_eq!(r.err(), Some(N5Error::InvalidInput));
    let r = fs.read_block::<i32>("foo/bar", &attrs, GridCoord::from_slice(&[0, 0, 0]), Some(&[0u8, 9, 0, 0]));
    assert_eq!(r.err(), Some(N5Error::InvalidData));
    let r = fs.read_block::<i32>("../x", &attrs, GridCoord::from_slice(&[0, 0, 0]), None);
    assert_eq!(r.err(), Some(N5Error::NotFound));
}
